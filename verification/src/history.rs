//! Per-asset price history: a list of aggregate snapshots ordered by ledger,
//! with lookup, interpolation, ranges, pagination, compaction and pruning.

use vstd::prelude::*;
use crate::arith::clamp_i128;
use crate::oracle::PriceOracleContract;
use crate::types::{CompactionMetadata, ErrorCode, LedgerInfo, PriceHistoryEntry};

verus! {

/// Ledgers per weekly history bucket.
pub const LEDGERS_PER_WEEK: u32 = 120_960;

/// Largest page returned by paginated history reads.
pub const MAX_PAGE_SIZE: u32 = 50;

/// History entries are ordered by strictly increasing ledger.
pub open spec fn ledgers_increasing(s: Seq<PriceHistoryEntry>) -> bool {
    forall|i: int, j: int| 0 <= i < j < s.len() ==> s[i].ledger < s[j].ledger
}

/// The weekly bucket a ledger belongs to.
pub fn ledger_to_bucket(ledger: u32) -> (r: u32)
    ensures
        r == ledger / LEDGERS_PER_WEEK,
{
    ledger / LEDGERS_PER_WEEK
}

/// The first entry recorded at `ledger`, if any.
pub open spec fn find_entry(s: Seq<PriceHistoryEntry>, ledger: u32) -> Option<PriceHistoryEntry>
    decreases s.len(),
{
    if s.len() == 0 {
        None
    } else if s[0].ledger == ledger {
        Some(s[0])
    } else {
        find_entry(s.drop_first(), ledger)
    }
}

pub proof fn lemma_find_entry_some(s: Seq<PriceHistoryEntry>, ledger: u32)
    ensures
        find_entry(s, ledger) matches Some(e) ==> e.ledger == ledger,
        find_entry(s, ledger) is Some <==> exists|i: int| 0 <= i < s.len() && s[i].ledger == ledger,
    decreases s.len(),
{
    if s.len() > 0 {
        lemma_find_entry_some(s.drop_first(), ledger);
        if s[0].ledger != ledger {
            if exists|i: int| 0 <= i < s.len() && s[i].ledger == ledger {
                let i = choose|i: int| 0 <= i < s.len() && s[i].ledger == ledger;
                assert(s.drop_first()[i - 1].ledger == ledger);
            }
            if exists|i: int| 0 <= i < s.drop_first().len() && s.drop_first()[i].ledger == ledger {
                let i = choose|i: int| 0 <= i < s.drop_first().len() && s.drop_first()[i].ledger == ledger;
                assert(s[i + 1].ledger == ledger);
            }
        }
    }
}

/// The entry recorded at `ledger`, if any.
pub fn read_history_entry(h: &Vec<PriceHistoryEntry>, ledger: u32) -> (r: Option<PriceHistoryEntry>)
    ensures
        r == find_entry(h@, ledger),
{
    let n = h.len();
    let mut i: usize = 0;
    assert(h@.subrange(0, n as int) =~= h@);
    while i < n
        invariant
            n == h.len(),
            0 <= i <= n,
            find_entry(h@, ledger) == find_entry(h@.subrange(i as int, n as int), ledger),
        decreases n - i,
    {
        assert(h@.subrange(i as int, n as int).drop_first() =~= h@.subrange(i + 1, n as int));
        if h[i].ledger == ledger {
            return Some(h[i]);
        }
        i = i + 1;
    }
    None
}

/// Number of leading entries whose ledger is below `ledger`.
pub open spec fn insert_point(s: Seq<PriceHistoryEntry>, ledger: int) -> int
    decreases s.len(),
{
    if s.len() == 0 {
        0
    } else if s.last().ledger < ledger {
        s.len() as int
    } else {
        insert_point(s.drop_last(), ledger)
    }
}

pub proof fn lemma_insert_point(s: Seq<PriceHistoryEntry>, ledger: int)
    requires
        ledgers_increasing(s),
    ensures
        0 <= insert_point(s, ledger) <= s.len(),
        forall|i: int| 0 <= i < insert_point(s, ledger) ==> s[i].ledger < ledger,
        forall|i: int| insert_point(s, ledger) <= i < s.len() ==> s[i].ledger >= ledger,
    decreases s.len(),
{
    if s.len() > 0 {
        if s.last().ledger >= ledger {
            lemma_insert_point(s.drop_last(), ledger);
            assert forall|i: int| insert_point(s, ledger) <= i < s.len() implies s[i].ledger >= ledger by {
                if i < s.len() - 1 {
                    assert(s.drop_last()[i] == s[i]);
                }
            }
            assert forall|i: int| 0 <= i < insert_point(s, ledger) implies s[i].ledger < ledger by {
                assert(s.drop_last()[i] == s[i]);
            }
        } else {
            assert forall|i: int| 0 <= i < s.len() implies s[i].ledger < ledger by {
                if i < s.len() - 1 {
                    assert(s[i].ledger < s[s.len() - 1].ledger);
                }
            }
        }
    }
}

/// Index of the first entry at or after `ledger`, scanning from the end.
pub fn find_insert_point(h: &Vec<PriceHistoryEntry>, ledger: u32) -> (r: usize)
    ensures
        r == insert_point(h@, ledger as int),
{
    let mut i: usize = h.len();
    assert(h@.subrange(0, i as int) =~= h@);
    while i > 0 && h[i - 1].ledger >= ledger
        invariant
            i <= h.len(),
            insert_point(h@, ledger as int) == insert_point(h@.subrange(0, i as int), ledger as int),
        decreases i,
    {
        assert(h@.subrange(0, i as int).drop_last() =~= h@.subrange(0, i - 1));
        i = i - 1;
    }
    i
}

/// `s` with `e` recorded at its ledger: an entry already at that ledger is
/// replaced, otherwise `e` is inserted in ledger order.
pub open spec fn upsert_spec(s: Seq<PriceHistoryEntry>, e: PriceHistoryEntry) -> Seq<PriceHistoryEntry> {
    let i = insert_point(s, e.ledger as int);
    let j = if i < s.len() && s[i].ledger == e.ledger {
        i + 1
    } else {
        i
    };
    s.subrange(0, i).push(e) + s.subrange(j, s.len() as int)
}

/// Records `e` in the history at its ledger (see `upsert_spec`).
pub fn upsert_entry(h: &Vec<PriceHistoryEntry>, e: PriceHistoryEntry) -> (r: Vec<PriceHistoryEntry>)
    requires
        ledgers_increasing(h@),
    ensures
        r@ == upsert_spec(h@, e),
        ledgers_increasing(r@),
{
    let n = h.len();
    let i = find_insert_point(h, e.ledger);
    proof {
        lemma_insert_point(h@, e.ledger as int);
    }
    let j = if i < n && h[i].ledger == e.ledger {
        i + 1
    } else {
        i
    };
    let mut r: Vec<PriceHistoryEntry> = Vec::new();
    let mut k: usize = 0;
    while k < i
        invariant
            i <= n == h.len(),
            k <= i,
            r@ == h@.subrange(0, k as int),
        decreases i - k,
    {
        r.push(h[k]);
        k = k + 1;
    }
    r.push(e);
    let ghost mid = r@;
    let mut k: usize = j;
    while k < n
        invariant
            j <= k <= n == h.len(),
            r@ == mid + h@.subrange(j as int, k as int),
        decreases n - k,
    {
        r.push(h[k]);
        k = k + 1;
        assert(r@ =~= mid + h@.subrange(j as int, k as int));
    }
    proof {
        assert(r@ =~= upsert_spec(h@, e));
        let s = h@;
        assert forall|a: int, b: int| 0 <= a < b < r@.len() implies r@[a].ledger < r@[b].ledger by {
            if b < i {
            } else if b == i {
            } else if a < i {
                assert(r@[b] == s[b - i - 1 + j]);
            } else if a == i {
                assert(r@[b] == s[b - i - 1 + j]);
                if j == i + 1 {
                    assert(s[i as int].ledger == e.ledger);
                }
            } else {
                assert(r@[a] == s[a - i - 1 + j]);
                assert(r@[b] == s[b - i - 1 + j]);
            }
        }
    }
    r
}

/// Whether `candidate` lies within `threshold_bps` basis points of
/// `reference`: `|candidate - reference| * 10_000 <= threshold_bps * |reference|`,
/// each product saturating at `i128::MAX`. Never true for a zero threshold or
/// a zero reference.
pub open spec fn within_threshold_spec(reference: int, candidate: int, threshold_bps: int) -> bool {
    let diff = if candidate > reference {
        candidate - reference
    } else {
        reference - candidate
    };
    let abs_ref = if reference < 0 {
        -reference
    } else {
        reference
    };
    threshold_bps != 0 && reference != 0 && clamp_i128(diff * 10_000) <= clamp_i128(threshold_bps * abs_ref)
}

/// Absolute value of an `i128` as a `u128`.
pub fn abs_u128(x: i128) -> (r: u128)
    ensures
        r == if x < 0 { -x } else { x as int },
{
    if x >= 0 {
        x as u128
    } else if x == i128::MIN {
        0x8000_0000_0000_0000_0000_0000_0000_0000u128
    } else {
        (-x) as u128
    }
}

/// Whether `candidate` is within `threshold_bps` basis points of `reference_price`.
pub fn within_threshold(reference_price: i128, candidate_price: i128, threshold_bps: u32) -> (r: bool)
    ensures
        r == within_threshold_spec(reference_price as int, candidate_price as int, threshold_bps as int),
{
    if threshold_bps == 0 || reference_price == 0 {
        return false;
    }
    let abs_ref: u128 = abs_u128(reference_price);
    let rhs: i128 = match (threshold_bps as u128).checked_mul(abs_ref) {
        Some(p) => {
            if p > i128::MAX as u128 {
                i128::MAX
            } else {
                p as i128
            }
        },
        None => i128::MAX,
    };
    let diff: u128 = if candidate_price >= 0 && reference_price < 0 {
        candidate_price as u128 + abs_u128(reference_price)
    } else if candidate_price < 0 && reference_price >= 0 {
        reference_price as u128 + abs_u128(candidate_price)
    } else if candidate_price > reference_price {
        (candidate_price - reference_price) as u128
    } else {
        (reference_price - candidate_price) as u128
    };
    let lhs: i128 = match diff.checked_mul(10_000) {
        Some(p) => {
            if p > i128::MAX as u128 {
                i128::MAX
            } else {
                p as i128
            }
        },
        None => i128::MAX,
    };
    lhs <= rhs
}


/// Whether a new aggregate should be left out of the history because it is
/// within the compaction threshold of the latest entry (which must be from
/// an earlier ledger).
pub open spec fn should_skip_spec(s: Seq<PriceHistoryEntry>, threshold_bps: u32, current_ledger: u32, candidate: i128) -> bool {
    threshold_bps != 0 && s.len() > 0 && s.last().ledger != current_ledger
        && within_threshold_spec(s.last().price as int, candidate as int, threshold_bps as int)
}

/// Decides whether writing `candidate_price` to the history can be skipped
/// (see `should_skip_spec`).
pub fn should_skip_on_write(h: &Vec<PriceHistoryEntry>, threshold_bps: u32, current_ledger: u32, candidate_price: i128) -> (r: bool)
    ensures
        r == should_skip_spec(h@, threshold_bps, current_ledger, candidate_price),
{
    if threshold_bps == 0 || h.len() == 0 {
        return false;
    }
    let last = h[h.len() - 1];
    if last.ledger == current_ledger {
        return false;
    }
    within_threshold(last.price, candidate_price, threshold_bps)
}

/// Entries kept after scanning positions `1..k` of `s` (the first entry is
/// always kept), with the price of the last kept entry: an entry is dropped
/// when it is within the threshold of the last kept price.
pub open spec fn compact_prefix(s: Seq<PriceHistoryEntry>, k: int, threshold_bps: u32) -> (Seq<PriceHistoryEntry>, i128)
    decreases k,
{
    if k <= 1 {
        (seq![s[0]], s[0].price)
    } else {
        let (kept, last_price) = compact_prefix(s, k - 1, threshold_bps);
        if within_threshold_spec(last_price as int, s[k - 1].price as int, threshold_bps as int) {
            (kept, last_price)
        } else {
            (kept.push(s[k - 1]), s[k - 1].price)
        }
    }
}

/// The history after compaction: with at most one entry or a zero threshold
/// it is unchanged; otherwise the first and last entries stay and each entry
/// between them stays only if it moved beyond the threshold from the last
/// kept entry.
pub open spec fn compact_spec(s: Seq<PriceHistoryEntry>, threshold_bps: u32) -> Seq<PriceHistoryEntry> {
    if s.len() <= 1 || threshold_bps == 0 {
        s
    } else {
        compact_prefix(s, s.len() - 1, threshold_bps).0.push(s.last())
    }
}

/// The entries kept by a compaction scan are in ledger order, and the last
/// of them lies at or before position `k - 1`.
proof fn lemma_compact_prefix_ordered(s: Seq<PriceHistoryEntry>, k: int, threshold_bps: u32)
    requires
        ledgers_increasing(s),
        1 <= k <= s.len(),
    ensures
        compact_prefix(s, k, threshold_bps).0.len() >= 1,
        ledgers_increasing(compact_prefix(s, k, threshold_bps).0),
        compact_prefix(s, k, threshold_bps).0.last().ledger <= s[k - 1].ledger,
    decreases k,
{
    if k > 1 {
        lemma_compact_prefix_ordered(s, k - 1, threshold_bps);
    }
}

/// Compaction keeps a history in ledger order.
pub proof fn lemma_compact_ordered(s: Seq<PriceHistoryEntry>, threshold_bps: u32)
    requires
        ledgers_increasing(s),
    ensures
        ledgers_increasing(compact_spec(s, threshold_bps)),
{
    if s.len() > 1 && threshold_bps != 0 {
        lemma_compact_prefix_ordered(s, s.len() - 1, threshold_bps);
        let kept = compact_prefix(s, s.len() - 1, threshold_bps).0;
        let r = kept.push(s.last());
        assert forall|i: int, j: int| 0 <= i < j < r.len() implies r[i].ledger < r[j].ledger by {
            if j == r.len() - 1 {
                assert(r[i].ledger <= kept.last().ledger);
                assert(s[s.len() - 2].ledger < s[s.len() - 1].ledger);
            } else {
                assert(r[i] == kept[i] && r[j] == kept[j]);
            }
        }
    }
}

/// Consecutive entries of `r` up to position `m` are each beyond the
/// threshold from the one before.
pub open spec fn spread_apart(r: Seq<PriceHistoryEntry>, m: int, threshold_bps: u32) -> bool {
    forall|j: int| 1 <= j < m ==> !within_threshold_spec(#[trigger] r[j - 1].price as int, r[j].price as int, threshold_bps as int)
}

/// What a compaction scan keeps starts with the first entry, is spread
/// apart, and its last price is the one the scan compares against.
proof fn lemma_compact_prefix_spread(s: Seq<PriceHistoryEntry>, k: int, threshold_bps: u32)
    requires
        1 <= k <= s.len(),
    ensures
        compact_prefix(s, k, threshold_bps).0.len() >= 1,
        compact_prefix(s, k, threshold_bps).0[0] == s[0],
        compact_prefix(s, k, threshold_bps).1 == compact_prefix(s, k, threshold_bps).0.last().price,
        spread_apart(compact_prefix(s, k, threshold_bps).0, compact_prefix(s, k, threshold_bps).0.len() as int, threshold_bps),
    decreases k,
{
    if k > 1 {
        lemma_compact_prefix_spread(s, k - 1, threshold_bps);
        let (kept, lp) = compact_prefix(s, k - 1, threshold_bps);
        if !within_threshold_spec(lp as int, s[k - 1].price as int, threshold_bps as int) {
            let r = kept.push(s[k - 1]);
            assert forall|j: int| 1 <= j < r.len() implies !within_threshold_spec(#[trigger] r[j - 1].price as int, r[j].price as int, threshold_bps as int) by {
                if j < r.len() - 1 {
                    assert(r[j - 1] == kept[j - 1] && r[j] == kept[j]);
                }
            }
        }
    }
}

/// A scan over entries that are already spread apart keeps all of them.
proof fn lemma_compact_prefix_keeps(r: Seq<PriceHistoryEntry>, k: int, m: int, threshold_bps: u32)
    requires
        1 <= k <= m <= r.len(),
        spread_apart(r, m, threshold_bps),
    ensures
        compact_prefix(r, k, threshold_bps) == (r.subrange(0, k), r[k - 1].price),
    decreases k,
{
    if k > 1 {
        lemma_compact_prefix_keeps(r, k - 1, m, threshold_bps);
        assert(!within_threshold_spec(r[k - 2].price as int, r[k - 1].price as int, threshold_bps as int));
        assert(r.subrange(0, k - 1).push(r[k - 1]) =~= r.subrange(0, k));
    } else {
        assert(seq![r[0]] =~= r.subrange(0, 1));
    }
}

/// Compacting a compacted history changes nothing.
pub proof fn lemma_compact_idempotent(s: Seq<PriceHistoryEntry>, threshold_bps: u32)
    ensures
        compact_spec(compact_spec(s, threshold_bps), threshold_bps) == compact_spec(s, threshold_bps),
{
    if s.len() > 1 && threshold_bps != 0 {
        lemma_compact_prefix_spread(s, s.len() - 1, threshold_bps);
        let kept = compact_prefix(s, s.len() - 1, threshold_bps).0;
        let r = kept.push(s.last());
        assert(spread_apart(r, kept.len() as int, threshold_bps)) by {
            assert forall|j: int| 1 <= j < kept.len() implies !within_threshold_spec(#[trigger] r[j - 1].price as int, r[j].price as int, threshold_bps as int) by {
                assert(r[j - 1] == kept[j - 1] && r[j] == kept[j]);
                assert(!within_threshold_spec(kept[j - 1].price as int, kept[j].price as int, threshold_bps as int));
            }
        }
        lemma_compact_prefix_keeps(r, kept.len() as int, kept.len() as int, threshold_bps);
        assert(r.subrange(0, kept.len() as int) =~= kept);
        assert(compact_spec(r, threshold_bps) == kept.push(r.last()));
    }
}

/// Positions of the entries kept by a compaction scan over positions
/// `1..k` of `s` (mirrors `compact_prefix`).
pub open spec fn kept_positions(s: Seq<PriceHistoryEntry>, k: int, threshold_bps: u32) -> Seq<int>
    decreases k,
{
    if k <= 1 {
        seq![0int]
    } else {
        let ki = kept_positions(s, k - 1, threshold_bps);
        if within_threshold_spec(compact_prefix(s, k - 1, threshold_bps).1 as int, s[k - 1].price as int, threshold_bps as int) {
            ki
        } else {
            ki.push(k - 1)
        }
    }
}

/// `idx` lists positions of `s` in increasing order, from the first to the
/// last, `r` holds the entries at those positions, and every entry lying
/// strictly between two consecutive kept positions is within the threshold
/// of the earlier kept one.
pub open spec fn compaction_witness(s: Seq<PriceHistoryEntry>, r: Seq<PriceHistoryEntry>, idx: Seq<int>, threshold_bps: u32) -> bool {
    &&& idx.len() == r.len() >= 2
    &&& idx[0] == 0
    &&& idx[idx.len() - 1] == s.len() - 1
    &&& forall|a: int, b: int| 0 <= a < b < idx.len() ==> idx[a] < idx[b]
    &&& forall|j: int| 0 <= j < idx.len() ==> 0 <= idx[j] < s.len() && #[trigger] r[j] == s[idx[j]]
    &&& forall|j: int, i: int| 0 <= j < idx.len() - 1 && idx[j] < i < idx[j + 1]
        ==> #[trigger] within_threshold_spec(s[idx[j]].price as int, s[i].price as int, threshold_bps as int)
}

proof fn lemma_kept_positions(s: Seq<PriceHistoryEntry>, k: int, threshold_bps: u32)
    requires
        1 <= k <= s.len(),
    ensures ({
        let (kept, lp) = compact_prefix(s, k, threshold_bps);
        let ki = kept_positions(s, k, threshold_bps);
        &&& ki.len() == kept.len() >= 1
        &&& ki[0] == 0
        &&& ki[ki.len() - 1] <= k - 1
        &&& forall|a: int, b: int| 0 <= a < b < ki.len() ==> ki[a] < ki[b]
        &&& forall|j: int| 0 <= j < ki.len() ==> 0 <= ki[j] < k && #[trigger] kept[j] == s[ki[j]]
        &&& forall|j: int, i: int| 0 <= j < ki.len() - 1 && ki[j] < i < ki[j + 1]
            ==> #[trigger] within_threshold_spec(s[ki[j]].price as int, s[i].price as int, threshold_bps as int)
        &&& forall|i: int| ki[ki.len() - 1] < i < k
            ==> #[trigger] within_threshold_spec(s[ki[ki.len() - 1]].price as int, s[i].price as int, threshold_bps as int)
        &&& lp == s[ki[ki.len() - 1]].price
    }),
    decreases k,
{
    lemma_compact_prefix_spread(s, k, threshold_bps);
    if k > 1 {
        lemma_kept_positions(s, k - 1, threshold_bps);
        lemma_compact_prefix_spread(s, k - 1, threshold_bps);
        let (kept0, lp0) = compact_prefix(s, k - 1, threshold_bps);
        let ki0 = kept_positions(s, k - 1, threshold_bps);
        if !within_threshold_spec(lp0 as int, s[k - 1].price as int, threshold_bps as int) {
            let ki = ki0.push(k - 1);
            let kept = kept0.push(s[k - 1]);
            assert forall|j: int| 0 <= j < ki.len() implies 0 <= ki[j] < k && #[trigger] kept[j] == s[ki[j]] by {
                if j < ki0.len() {
                    assert(ki[j] == ki0[j] && kept[j] == kept0[j]);
                }
            }
            assert forall|j: int, i: int| 0 <= j < ki.len() - 1 && ki[j] < i < ki[j + 1]
                implies #[trigger] within_threshold_spec(s[ki[j]].price as int, s[i].price as int, threshold_bps as int) by {
                if j < ki0.len() - 1 {
                    assert(ki[j] == ki0[j] && ki[j + 1] == ki0[j + 1]);
                } else {
                    assert(ki[j] == ki0[ki0.len() - 1]);
                }
            }
        }
    }
}

/// The structure of a compaction: with a positive threshold and at least two
/// entries, the result keeps the first and the last entry, is a subsequence
/// of the history (`compaction_witness`), consecutive kept entries between
/// them are beyond the threshold of each other, and every dropped entry is
/// within the threshold of the kept entry before it.
pub proof fn lemma_compact_structure(s: Seq<PriceHistoryEntry>, threshold_bps: u32)
    requires
        s.len() >= 2,
        threshold_bps > 0,
    ensures
        exists|idx: Seq<int>| compaction_witness(s, compact_spec(s, threshold_bps), idx, threshold_bps),
        compact_spec(s, threshold_bps)[0] == s[0],
        compact_spec(s, threshold_bps).last() == s.last(),
        spread_apart(compact_spec(s, threshold_bps), compact_spec(s, threshold_bps).len() - 1, threshold_bps),
{
    let n = s.len() as int;
    lemma_kept_positions(s, n - 1, threshold_bps);
    lemma_compact_prefix_spread(s, n - 1, threshold_bps);
    let kept = compact_prefix(s, n - 1, threshold_bps).0;
    let ki = kept_positions(s, n - 1, threshold_bps);
    let r = kept.push(s.last());
    let idx = ki.push(n - 1);
    assert(r == compact_spec(s, threshold_bps));
    assert forall|j: int| 0 <= j < idx.len() implies 0 <= idx[j] < s.len() && #[trigger] r[j] == s[idx[j]] by {
        if j < ki.len() {
            assert(idx[j] == ki[j] && r[j] == kept[j]);
        }
    }
    assert forall|j: int, i: int| 0 <= j < idx.len() - 1 && idx[j] < i < idx[j + 1]
        implies #[trigger] within_threshold_spec(s[idx[j]].price as int, s[i].price as int, threshold_bps as int) by {
        if j < ki.len() - 1 {
            assert(idx[j] == ki[j] && idx[j + 1] == ki[j + 1]);
        } else {
            assert(idx[j] == ki[ki.len() - 1]);
        }
    }
    assert forall|a: int, b: int| 0 <= a < b < idx.len() implies idx[a] < idx[b] by {
        if b < ki.len() {
            assert(idx[a] == ki[a] && idx[b] == ki[b]);
        } else {
            assert(idx[a] == ki[a]);
        }
    }
    assert(compaction_witness(s, r, idx, threshold_bps));
    assert(r[0] == kept[0]);
    assert forall|j: int| 1 <= j < r.len() - 1 implies !within_threshold_spec(#[trigger] r[j - 1].price as int, r[j].price as int, threshold_bps as int) by {
        assert(r[j - 1] == kept[j - 1] && r[j] == kept[j]);
    }
}

/// Compacts the history, returning the retained entries and the
/// compaction record.
pub fn compact_history(h: &Vec<PriceHistoryEntry>, threshold_bps: u32, current_ledger: u32) -> (r: (Vec<PriceHistoryEntry>, CompactionMetadata))
    requires
        h.len() <= u32::MAX,
    ensures
        r.0@ == compact_spec(h@, threshold_bps),
        r.1 == (CompactionMetadata {
            original_count: h.len() as u32,
            compacted_count: r.0.len() as u32,
            last_compaction_ledger: current_ledger,
            threshold_bps,
        }),
        r.0.len() <= h.len(),
{
    let n = h.len();
    if n <= 1 || threshold_bps == 0 {
        let meta = CompactionMetadata {
            original_count: n as u32,
            compacted_count: n as u32,
            last_compaction_ledger: current_ledger,
            threshold_bps,
        };
        return (h.clone(), meta);
    }
    let mut retained: Vec<PriceHistoryEntry> = Vec::new();
    retained.push(h[0]);
    let mut last_kept_price = h[0].price;
    let mut i: usize = 1;
    while i < n - 1
        invariant
            n == h.len(),
            2 <= n,
            1 <= i <= n - 1,
            (retained@, last_kept_price) == compact_prefix(h@, i as int, threshold_bps),
            retained.len() <= i,
        decreases n - 1 - i,
    {
        let entry = h[i];
        if !within_threshold(last_kept_price, entry.price, threshold_bps) {
            retained.push(entry);
            last_kept_price = entry.price;
        }
        i = i + 1;
    }
    retained.push(h[n - 1]);
    let meta = CompactionMetadata {
        original_count: n as u32,
        compacted_count: retained.len() as u32,
        last_compaction_ledger: current_ledger,
        threshold_bps,
    };
    (retained, meta)
}

/// The history after dropping oldest entries while it is longer than
/// `max_len`, dropping at most `budget` entries.
pub open spec fn prune_count(len: int, max_len: int, budget: int) -> int {
    if len <= max_len {
        0
    } else if len - max_len <= budget {
        len - max_len
    } else {
        budget
    }
}

/// Removes the oldest entries while the history is longer than `max_len`,
/// removing at most `budget` of them. Returns the remaining history and the
/// number removed.
pub fn prune_oldest(h: &Vec<PriceHistoryEntry>, max_len: u32, budget: u32) -> (r: (Vec<PriceHistoryEntry>, u32))
    ensures
        r.1 == prune_count(h.len() as int, max_len as int, budget as int),
        r.0@ == h@.subrange(r.1 as int, h.len() as int),
{
    let n = h.len();
    let k: usize = if n as u128 <= max_len as u128 {
        0
    } else if (n - max_len as usize) as u128 <= budget as u128 {
        n - max_len as usize
    } else {
        budget as usize
    };
    let mut r: Vec<PriceHistoryEntry> = Vec::new();
    let mut i: usize = k;
    while i < n
        invariant
            n == h.len(),
            k <= i <= n,
            r@ == h@.subrange(k as int, i as int),
        decreases n - i,
    {
        r.push(h[i]);
        i = i + 1;
    }
    (r, k as u32)
}

/// The entries stamped at or after `cutoff`, in order.
pub open spec fn kept_since(s: Seq<PriceHistoryEntry>, cutoff: u64) -> Seq<PriceHistoryEntry>
    decreases s.len(),
{
    if s.len() == 0 {
        Seq::empty()
    } else {
        let rest = kept_since(s.drop_last(), cutoff);
        if s.last().timestamp >= cutoff { rest.push(s.last()) } else { rest }
    }
}

/// Entries kept are entries of the history.
pub proof fn lemma_kept_since_len(s: Seq<PriceHistoryEntry>, cutoff: u64)
    ensures
        kept_since(s, cutoff).len() <= s.len(),
        ledgers_increasing(s) ==> ledgers_increasing(kept_since(s, cutoff)),
        kept_since(s, cutoff).len() > 0 && ledgers_increasing(s) ==> kept_since(s, cutoff).last().ledger <= s.last().ledger,
    decreases s.len(),
{
    if s.len() > 0 {
        lemma_kept_since_len(s.drop_last(), cutoff);
        let rest = kept_since(s.drop_last(), cutoff);
        if ledgers_increasing(s) {
            assert(ledgers_increasing(s.drop_last()));
            if rest.len() > 0 {
                assert(s.drop_last().last().ledger < s.last().ledger);
            }
        }
    }
}

/// Removes every entry whose timestamp is before `cutoff`; returns the
/// remaining history and the number removed.
pub fn prune_before_timestamp(h: &Vec<PriceHistoryEntry>, cutoff: u64) -> (r: (Vec<PriceHistoryEntry>, u32))
    requires
        h.len() <= u32::MAX,
    ensures
        r.0@ == kept_since(h@, cutoff),
        r.1 == h.len() - r.0.len(),
{
    let n = h.len();
    let mut kept: Vec<PriceHistoryEntry> = Vec::new();
    let mut i: usize = 0;
    while i < n
        invariant
            n == h.len(),
            0 <= i <= n,
            kept@ == kept_since(h@.subrange(0, i as int), cutoff),
            kept.len() <= i,
        decreases n - i,
    {
        proof {
            assert(h@.subrange(0, i + 1).drop_last() =~= h@.subrange(0, i as int));
        }
        if h[i].timestamp >= cutoff {
            kept.push(h[i]);
        }
        i = i + 1;
    }
    proof {
        assert(h@.subrange(0, n as int) =~= h@);
    }
    let pruned = (n - kept.len()) as u32;
    (kept, pruned)
}

/// The entries whose ledger lies in `[start, end]`.
pub open spec fn range_spec(s: Seq<PriceHistoryEntry>, start: u32, end: u32) -> Seq<PriceHistoryEntry> {
    s.filter(|e: PriceHistoryEntry| start <= e.ledger && e.ledger <= end)
}

/// Entries recorded between `start_ledger` and `end_ledger` inclusive;
/// `NoData` when the range is reversed or wider than `max_range` ledgers.
pub fn get_historical_prices(h: &Vec<PriceHistoryEntry>, start_ledger: u32, end_ledger: u32, max_range: u32) -> (r: Result<Vec<PriceHistoryEntry>, ErrorCode>)
    ensures
        (end_ledger < start_ledger || end_ledger - start_ledger > max_range) ==> r == Err::<Vec<PriceHistoryEntry>, ErrorCode>(ErrorCode::NoData),
        !(end_ledger < start_ledger || end_ledger - start_ledger > max_range) ==> (r matches Ok(v) && v@ == range_spec(h@, start_ledger, end_ledger)),
{
    if end_ledger < start_ledger || end_ledger - start_ledger > max_range {
        return Err(ErrorCode::NoData);
    }
    let n = h.len();
    let ghost pred = |e: PriceHistoryEntry| start_ledger <= e.ledger && e.ledger <= end_ledger;
    let mut out: Vec<PriceHistoryEntry> = Vec::new();
    let mut i: usize = 0;
    while i < n
        invariant
            n == h.len(),
            0 <= i <= n,
            pred == (|e: PriceHistoryEntry| start_ledger <= e.ledger && e.ledger <= end_ledger),
            out@ == h@.subrange(0, i as int).filter(pred),
        decreases n - i,
    {
        proof {
            reveal_with_fuel(Seq::<_>::filter, 1);
            assert(h@.subrange(0, i + 1).drop_last() =~= h@.subrange(0, i as int));
        }
        let e = h[i];
        if start_ledger <= e.ledger && e.ledger <= end_ledger {
            out.push(e);
        }
        i = i + 1;
    }
    proof {
        assert(h@.subrange(0, n as int) =~= h@);
    }
    Ok(out)
}

/// Entries at or after `cursor`.
pub open spec fn from_cursor(s: Seq<PriceHistoryEntry>, cursor: u32) -> Seq<PriceHistoryEntry> {
    s.filter(|e: PriceHistoryEntry| e.ledger >= cursor)
}

/// One page of history: the first `limit` entries at or after `cursor`, and
/// the ledger of the next entry when more remain. `InvalidPageSize` unless
/// `1 <= limit <= MAX_PAGE_SIZE`.
pub fn get_historical_prices_paginated(h: &Vec<PriceHistoryEntry>, cursor: u32, limit: u32) -> (r: Result<(Vec<PriceHistoryEntry>, Option<u32>), ErrorCode>)
    ensures
        (limit == 0 || limit > MAX_PAGE_SIZE) ==> r == Err::<(Vec<PriceHistoryEntry>, Option<u32>), ErrorCode>(ErrorCode::InvalidPageSize),
        !(limit == 0 || limit > MAX_PAGE_SIZE) ==> (r matches Ok(page) && {
            let rest = from_cursor(h@, cursor);
            &&& page.0@ == if rest.len() <= limit { rest } else { rest.subrange(0, limit as int) }
            &&& page.1 == if rest.len() <= limit { None } else { Some(rest[limit as int].ledger) }
        }),
{
    if limit == 0 || limit > MAX_PAGE_SIZE {
        return Err(ErrorCode::InvalidPageSize);
    }
    let n = h.len();
    let ghost pred = |e: PriceHistoryEntry| e.ledger >= cursor;
    let ghost rest = from_cursor(h@, cursor);
    let mut out: Vec<PriceHistoryEntry> = Vec::new();
    let mut i: usize = 0;
    while i < n
        invariant
            n == h.len(),
            0 <= i <= n,
            pred == (|e: PriceHistoryEntry| e.ledger >= cursor),
            rest == h@.filter(pred),
            out@ == h@.subrange(0, i as int).filter(pred),
            1 <= limit <= MAX_PAGE_SIZE,
            out.len() <= limit,
        decreases n - i,
    {
        proof {
            reveal_with_fuel(Seq::<_>::filter, 1);
            assert(h@.subrange(0, i + 1).drop_last() =~= h@.subrange(0, i as int));
            lemma_filter_prefix(h@, pred, i + 1);
        }
        let e = h[i];
        if e.ledger >= cursor {
            if out.len() >= limit as usize {
                proof {
                    lemma_filter_prefix(h@, pred, i as int);
                    assert(rest.subrange(0, limit as int) =~= out@);
                    assert(rest[limit as int] == e);
                }
                return Ok((out, Some(e.ledger)));
            }
            out.push(e);
        }
        i = i + 1;
    }
    proof {
        assert(h@.subrange(0, n as int) =~= h@);
    }
    Ok((out, None))
}

/// Filtering a prefix gives a prefix of the filtered sequence; the element
/// right after it, when kept, is the next filtered element.
pub proof fn lemma_filter_prefix(s: Seq<PriceHistoryEntry>, pred: spec_fn(PriceHistoryEntry) -> bool, k: int)
    requires
        0 <= k <= s.len(),
    ensures
        s.subrange(0, k).filter(pred).len() <= s.filter(pred).len(),
        s.filter(pred).subrange(0, s.subrange(0, k).filter(pred).len() as int) == s.subrange(0, k).filter(pred),
        k < s.len() && pred(s[k]) ==> s.filter(pred)[s.subrange(0, k).filter(pred).len() as int] == s[k],
    decreases s.len() - k,
{
    reveal_with_fuel(Seq::<_>::filter, 1);
    if k == s.len() {
        assert(s.subrange(0, k) =~= s);
    } else {
        lemma_filter_prefix(s, pred, k + 1);
        assert(s.subrange(0, k + 1).drop_last() =~= s.subrange(0, k));
        let a = s.subrange(0, k).filter(pred);
        let b = s.subrange(0, k + 1).filter(pred);
        let f = s.filter(pred);
        if pred(s[k]) {
            assert(b == a.push(s[k]));
            assert(f.subrange(0, b.len() as int)[a.len() as int] == f[a.len() as int]);
            assert(f[a.len() as int] == s[k]);
            assert(f.subrange(0, a.len() as int) =~= b.subrange(0, a.len() as int));
            assert(b.subrange(0, a.len() as int) =~= a);
        } else {
            assert(b == a);
        }
    }
}


/// Index of the first entry after `ledger`, scanning from the end.
pub fn find_after_point(h: &Vec<PriceHistoryEntry>, ledger: u32) -> (r: usize)
    ensures
        r == insert_point(h@, ledger + 1),
{
    let mut i: usize = h.len();
    assert(h@.subrange(0, i as int) =~= h@);
    while i > 0 && h[i - 1].ledger > ledger
        invariant
            i <= h.len(),
            insert_point(h@, ledger + 1) == insert_point(h@.subrange(0, i as int), ledger + 1),
        decreases i,
    {
        assert(h@.subrange(0, i as int).drop_last() =~= h@.subrange(0, i - 1));
        i = i - 1;
    }
    i
}

/// Linear interpolation between the entry `b` before `ledger` and the entry
/// `a` after it, with `i128` arithmetic rounding toward zero; `None` when an
/// intermediate value overflows `i128`.
pub open spec fn interpolate_spec(b: PriceHistoryEntry, a: PriceHistoryEntry, ledger: u32) -> Option<PriceHistoryEntry> {
    let range = a.ledger - b.ledger;
    let offset = ledger - b.ledger;
    let dp = a.price - b.price;
    let prod = dp * offset;
    let price = b.price + crate::arith::div_trunc(prod, range);
    let dts = if a.timestamp >= b.timestamp { a.timestamp - b.timestamp } else { 0 };
    let ts = b.timestamp + dts * offset / range;
    if i128::MIN <= dp <= i128::MAX && i128::MIN <= prod <= i128::MAX && i128::MIN <= price <= i128::MAX {
        Some(PriceHistoryEntry {
            price: price as i128,
            timestamp: ts as u64,
            ledger,
            num_sources: 0,
            is_interpolated: true,
        })
    } else {
        None
    }
}

/// The recorded entry at `ledger`; failing that, with interpolation enabled,
/// the interpolation between the nearest entries before and after it.
pub open spec fn historical_price_spec(s: Seq<PriceHistoryEntry>, ledger: u32, interpolation_enabled: bool) -> Result<PriceHistoryEntry, ErrorCode> {
    match find_entry(s, ledger) {
        Some(e) => Ok(e),
        None => {
            let k = insert_point(s, ledger + 1);
            if !interpolation_enabled || k == 0 || k >= s.len() {
                Err(ErrorCode::NoData)
            } else {
                match interpolate_spec(s[k - 1], s[k], ledger) {
                    Some(e) => Ok(e),
                    None => Err(ErrorCode::ArithmeticOverflow),
                }
            }
        },
    }
}

/// The price at `ledger` (see `historical_price_spec`).
pub fn get_historical_price(h: &Vec<PriceHistoryEntry>, ledger: u32, interpolation_enabled: bool) -> (r: Result<PriceHistoryEntry, ErrorCode>)
    requires
        ledgers_increasing(h@),
    ensures
        r == historical_price_spec(h@, ledger, interpolation_enabled),
{
    if let Some(e) = read_history_entry(h, ledger) {
        return Ok(e);
    }
    let k = find_after_point(h, ledger);
    if !interpolation_enabled || k == 0 || k >= h.len() {
        return Err(ErrorCode::NoData);
    }
    proof {
        lemma_insert_point(h@, ledger + 1);
        lemma_find_entry_some(h@, ledger);
    }
    let b = h[k - 1];
    let a = h[k];
    assert(b.ledger < ledger < a.ledger);
    let range: i128 = (a.ledger - b.ledger) as i128;
    let offset: i128 = (ledger - b.ledger) as i128;
    let dp = match a.price.checked_sub(b.price) {
        Some(x) => x,
        None => return Err(ErrorCode::ArithmeticOverflow),
    };
    let prod = match dp.checked_mul(offset) {
        Some(x) => x,
        None => return Err(ErrorCode::ArithmeticOverflow),
    };
    let price = match b.price.checked_add(prod / range) {
        Some(x) => x,
        None => return Err(ErrorCode::ArithmeticOverflow),
    };
    let dts: u64 = if a.timestamp >= b.timestamp { a.timestamp - b.timestamp } else { 0 };
    assert(dts as int * offset <= dts as int * range) by (nonlinear_arith)
        requires offset <= range, dts >= 0;
    assert((dts as int * offset) / (range as int) <= dts as int) by (nonlinear_arith)
        requires dts as int * offset <= dts as int * range, range > 0, dts >= 0, offset >= 0;
    assert(dts as int * offset >= 0) by (nonlinear_arith)
        requires dts >= 0, offset >= 0;
    assert(dts as int * offset <= 0xffff_ffff_ffff_ffff * 0xffff_ffff) by (nonlinear_arith)
        requires dts <= 0xffff_ffff_ffff_ffff, 0 <= offset <= 0xffff_ffff;
    let step = ((dts as i128) * offset / range) as u64;
    let ts = b.timestamp + step;
    Ok(PriceHistoryEntry { price, timestamp: ts, ledger, num_sources: 0, is_interpolated: true })
}

/// Whether an entry is recorded at `ledger`.
pub fn has_historical_price(h: &Vec<PriceHistoryEntry>, ledger: u32) -> (r: bool)
    ensures
        r == find_entry(h@, ledger) is Some,
{
    read_history_entry(h, ledger).is_some()
}

/// The entries that share `ledger`'s weekly bucket.
pub fn get_bucket_entries(h: &Vec<PriceHistoryEntry>, ledger: u32) -> (r: Vec<PriceHistoryEntry>)
    ensures
        r@ == h@.filter(|e: PriceHistoryEntry| e.ledger / LEDGERS_PER_WEEK == ledger / LEDGERS_PER_WEEK),
{
    let bucket = ledger_to_bucket(ledger);
    let n = h.len();
    let ghost pred = |e: PriceHistoryEntry| e.ledger / LEDGERS_PER_WEEK == ledger / LEDGERS_PER_WEEK;
    let mut out: Vec<PriceHistoryEntry> = Vec::new();
    let mut i: usize = 0;
    while i < n
        invariant
            n == h.len(),
            0 <= i <= n,
            bucket == ledger / LEDGERS_PER_WEEK,
            pred == (|e: PriceHistoryEntry| e.ledger / LEDGERS_PER_WEEK == ledger / LEDGERS_PER_WEEK),
            out@ == h@.subrange(0, i as int).filter(pred),
        decreases n - i,
    {
        proof {
            reveal_with_fuel(Seq::<_>::filter, 1);
            assert(h@.subrange(0, i + 1).drop_last() =~= h@.subrange(0, i as int));
        }
        if ledger_to_bucket(h[i].ledger) == bucket {
            out.push(h[i]);
        }
        i = i + 1;
    }
    proof {
        assert(h@.subrange(0, n as int) =~= h@);
    }
    out
}

/// Estimated storage footprint of one history entry, in bytes.
pub const BYTES_PER_HISTORY_ENTRY: u32 = 96;

/// Storage rent per kilobyte per month, in stroops.
pub const STROOP_PER_KB_PER_MONTH: i128 = 4_000;

/// Storage estimate for `entry_count` history entries: bytes (saturating),
/// rent for the rounded-up kilobytes, and rent plus 20% for read/write
/// operations. Returned as `(estimated_bytes, estimated_ttl_costs, projected_monthly_cost)`.
pub open spec fn storage_budget_spec(entry_count: u32) -> (int, int, int) {
    let bytes = if entry_count * 96 > u32::MAX { u32::MAX as int } else { entry_count * 96 };
    let kb = (bytes + 1023) / 1024;
    let ttl = kb * 4_000;
    (bytes, ttl, ttl + ttl / 5)
}

/// Storage estimate for an asset's history (see `storage_budget_spec`).
pub fn get_storage_budget(entry_count: u32) -> (r: (u32, i128, i128))
    ensures
        (r.0 as int, r.1 as int, r.2 as int) == storage_budget_spec(entry_count),
{
    let estimated_bytes: u32 = match entry_count.checked_mul(BYTES_PER_HISTORY_ENTRY) {
        Some(b) => b,
        None => u32::MAX,
    };
    let estimated_kb = (estimated_bytes as i128 + 1023) / 1024;
    let estimated_ttl_costs = estimated_kb * STROOP_PER_KB_PER_MONTH;
    let projected_monthly_cost = estimated_ttl_costs + estimated_ttl_costs / 5;
    (estimated_bytes, estimated_ttl_costs, projected_monthly_cost)
}

} // verus!

verus! {

/// Storage estimates summed over all registered assets.
#[derive(Clone, Copy, Debug, PartialEq, Eq, Structural)]
pub struct TotalStorageBudget {
    pub asset_count: u32,
    pub total_entry_count: u32,
    pub total_estimated_ttl_costs: i128,
    pub total_projected_monthly_cost: i128,
    pub total_estimated_bytes: u32,
}

/// `a + b` saturating at `u32::MAX`.
pub open spec fn sat_add_u32_spec(a: int, b: int) -> int {
    if a + b > u32::MAX { u32::MAX as int } else { a + b }
}

/// `a + b` saturating within `i128`.
pub open spec fn sat_add_i128_spec(a: int, b: int) -> int {
    crate::arith::clamp_i128(a + b)
}

/// The running totals `(entries, ttl costs, monthly costs, bytes)` over the
/// history lengths `counts`, each sum saturating.
pub open spec fn budget_totals(counts: Seq<u32>) -> (int, int, int, int)
    decreases counts.len(),
{
    if counts.len() == 0 {
        (0, 0, 0, 0)
    } else {
        let t = budget_totals(counts.drop_last());
        let b = storage_budget_spec(counts.last());
        (sat_add_u32_spec(t.0, counts.last() as int), sat_add_i128_spec(t.1, b.1), sat_add_i128_spec(t.2, b.2), sat_add_u32_spec(t.3, b.0))
    }
}

impl PriceOracleContract {
    /// History lengths of the first `n` registered assets, as `u32`
    /// (saturating).
    pub open spec fn history_counts(&self, n: int) -> Seq<u32> {
        Seq::new(n as nat, |i: int| if self.history(self.assets@[i]).len() > u32::MAX { u32::MAX } else { self.history(self.assets@[i]).len() as u32 })
    }

    /// Storage estimates of every registered asset's history, summed with
    /// saturation.
    pub fn get_total_storage_budget(&self) -> (r: TotalStorageBudget)
        requires
            self.assets@.len() <= u32::MAX,
        ensures
            r.asset_count == self.assets@.len(),
            (r.total_entry_count as int, r.total_estimated_ttl_costs as int, r.total_projected_monthly_cost as int,
                r.total_estimated_bytes as int) == budget_totals(self.history_counts(self.assets@.len() as int)),
    {
        let n = self.assets.len();
        let mut entries: u32 = 0;
        let mut ttl: i128 = 0;
        let mut monthly: i128 = 0;
        let mut bytes: u32 = 0;
        let mut i: usize = 0;
        while i < n
            invariant
                n == self.assets@.len() <= u32::MAX,
                0 <= i <= n,
                (entries as int, ttl as int, monthly as int, bytes as int) == budget_totals(self.history_counts(i as int)),
            decreases n - i,
        {
            proof {
                assert(self.history_counts(i + 1).drop_last() =~= self.history_counts(i as int));
            }
            let asset = self.assets[i];
            let len: usize = match self.histories.get(&asset) {
                Some(h) => h.len(),
                None => 0,
            };
            let count: u32 = if len > u32::MAX as usize { u32::MAX } else { len as u32 };
            assert(count == self.history_counts(i + 1).last());
            let (b, t, m) = get_storage_budget(count);
            entries = entries.saturating_add(count);
            ttl = crate::arith::sat_add(ttl, t);
            monthly = crate::arith::sat_add(monthly, m);
            bytes = bytes.saturating_add(b);
            i = i + 1;
        }
        TotalStorageBudget {
            asset_count: n as u32,
            total_entry_count: entries,
            total_estimated_ttl_costs: ttl,
            total_projected_monthly_cost: monthly,
            total_estimated_bytes: bytes,
        }
    }

    /// The price of a registered `asset` recorded at `ledger`, or, with
    /// interpolation enabled, interpolated between its neighbours (see
    /// `historical_price_spec`).
    pub fn get_historical_price(&self, asset: u64, ledger: u32) -> (r: Result<PriceHistoryEntry, ErrorCode>)
        requires
            self.wf(),
        ensures
            r == if !self.is_asset_spec(asset) {
                Err(ErrorCode::AssetNotRegistered)
            } else {
                historical_price_spec(self.history(asset), ledger, self.config.interpolation_enabled)
            },
    {
        if !self.is_asset_registered(asset) {
            return Err(ErrorCode::AssetNotRegistered);
        }
        let empty: Vec<PriceHistoryEntry> = Vec::new();
        let h: &Vec<PriceHistoryEntry> = match self.histories.get(&asset) {
            Some(h) => h,
            None => &empty,
        };
        assert(h@ == self.history(asset) && ledgers_increasing(h@));
        get_historical_price(h, ledger, self.config.interpolation_enabled)
    }

    /// Whether a registered `asset` has an entry recorded at `ledger`
    /// (false for an unregistered asset).
    pub fn has_historical_price(&self, asset: u64, ledger: u32) -> (r: bool)
        requires
            self.wf(),
        ensures
            r == (self.is_asset_spec(asset) && find_entry(self.history(asset), ledger) is Some),
    {
        if !self.is_asset_registered(asset) {
            return false;
        }
        let empty: Vec<PriceHistoryEntry> = Vec::new();
        let h: &Vec<PriceHistoryEntry> = match self.histories.get(&asset) {
            Some(h) => h,
            None => &empty,
        };
        assert(h@ == self.history(asset) && ledgers_increasing(h@));
        has_historical_price(h, ledger)
    }

    /// The entries of a registered `asset` recorded between `start_ledger`
    /// and `end_ledger` inclusive; `NoData` when the range is reversed or
    /// wider than the configured history length.
    pub fn get_historical_prices(&self, asset: u64, start_ledger: u32, end_ledger: u32) -> (r: Result<Vec<PriceHistoryEntry>, ErrorCode>)
        requires
            self.wf(),
        ensures
            !self.is_asset_spec(asset) ==> r == Err::<Vec<PriceHistoryEntry>, ErrorCode>(ErrorCode::AssetNotRegistered),
            self.is_asset_spec(asset) && (end_ledger < start_ledger || end_ledger - start_ledger > self.config.max_history_length)
                ==> r == Err::<Vec<PriceHistoryEntry>, ErrorCode>(ErrorCode::NoData),
            self.is_asset_spec(asset) && !(end_ledger < start_ledger || end_ledger - start_ledger > self.config.max_history_length)
                ==> (r matches Ok(v) && v@ == range_spec(self.history(asset), start_ledger, end_ledger)),
    {
        if !self.is_asset_registered(asset) {
            return Err(ErrorCode::AssetNotRegistered);
        }
        let empty: Vec<PriceHistoryEntry> = Vec::new();
        let h: &Vec<PriceHistoryEntry> = match self.histories.get(&asset) {
            Some(h) => h,
            None => &empty,
        };
        assert(h@ == self.history(asset) && ledgers_increasing(h@));
        get_historical_prices(h, start_ledger, end_ledger, self.config.max_history_length)
    }

    /// One page of a registered `asset`'s history (see the function on a
    /// history of the same name).
    pub fn get_historical_prices_paginated(&self, asset: u64, cursor: u32, limit: u32) -> (r: Result<(Vec<PriceHistoryEntry>, Option<u32>), ErrorCode>)
        requires
            self.wf(),
        ensures
            !self.is_asset_spec(asset) ==> r == Err::<(Vec<PriceHistoryEntry>, Option<u32>), ErrorCode>(ErrorCode::AssetNotRegistered),
            self.is_asset_spec(asset) && (limit == 0 || limit > MAX_PAGE_SIZE)
                ==> r == Err::<(Vec<PriceHistoryEntry>, Option<u32>), ErrorCode>(ErrorCode::InvalidPageSize),
            self.is_asset_spec(asset) && !(limit == 0 || limit > MAX_PAGE_SIZE) ==> (r matches Ok(page) && {
                let rest = from_cursor(self.history(asset), cursor);
                &&& page.0@ == if rest.len() <= limit { rest } else { rest.subrange(0, limit as int) }
                &&& page.1 == if rest.len() <= limit { None } else { Some(rest[limit as int].ledger) }
            }),
    {
        if !self.is_asset_registered(asset) {
            return Err(ErrorCode::AssetNotRegistered);
        }
        let empty: Vec<PriceHistoryEntry> = Vec::new();
        let h: &Vec<PriceHistoryEntry> = match self.histories.get(&asset) {
            Some(h) => h,
            None => &empty,
        };
        assert(h@ == self.history(asset) && ledgers_increasing(h@));
        get_historical_prices_paginated(h, cursor, limit)
    }

    /// Everything but the history of `asset` and the compaction records is
    /// unchanged.
    pub open spec fn compaction_frame(&self, other: &PriceOracleContract, asset: u64) -> bool {
        &&& self.config == other.config
        &&& self.description@ == other.description@
        &&& self.sources@ == other.sources@
        &&& self.assets@ == other.assets@
        &&& self.submissions@ == other.submissions@
        &&& self.last_submission@ == other.last_submission@
        &&& self.non_compliant@ == other.non_compliant@
        &&& self.aggregates@ == other.aggregates@
        &&& self.histories@.remove(asset) == other.histories@.remove(asset)
        &&& self.overrides@ == other.overrides@
        &&& self.asset_min_interval@ == other.asset_min_interval@
        &&& self.asset_resolution@ == other.asset_resolution@
        &&& self.price_bounds@ == other.price_bounds@
        &&& self.tripped@ == other.tripped@
        &&& self.paused_assets@ == other.paused_assets@
        &&& self.last_trigger@ == other.last_trigger@
        &&& self.nonces@ == other.nonces@
        &&& self.source_submission_counts@ == other.source_submission_counts@
        &&& self.total_submissions == other.total_submissions
        &&& self.commits@ == other.commits@
    }

    /// Compacts the history of a registered `asset` with the configured
    /// threshold (administrator only): the history becomes `compact_spec` of
    /// itself, and the compaction record (counts before and after, the
    /// ledger of `now`, the threshold) is stored for the asset and returned.
    pub fn compact_asset_history(&mut self, caller: u64, asset: u64, now: LedgerInfo) -> (r: Result<CompactionMetadata, ErrorCode>)
        requires
            old(self).wf(),
            old(self).history(asset).len() <= u32::MAX,
        ensures
            final(self).wf(),
            caller != old(self).config.admin ==> r == Err::<CompactionMetadata, ErrorCode>(ErrorCode::NotAuthorized),
            caller == old(self).config.admin && !old(self).is_asset_spec(asset)
                ==> r == Err::<CompactionMetadata, ErrorCode>(ErrorCode::AssetNotRegistered),
            r is Err ==> final(self).config == old(self).config && final(self).same_data(old(self)),
            r is Ok <==> caller == old(self).config.admin && old(self).is_asset_spec(asset),
            r matches Ok(meta) ==> {
                let h = old(self).history(asset);
                let t = old(self).config.compaction_threshold_bps;
                &&& final(self).history(asset) == compact_spec(h, t)
                &&& meta == (CompactionMetadata {
                    original_count: h.len() as u32,
                    compacted_count: compact_spec(h, t).len() as u32,
                    last_compaction_ledger: now.sequence,
                    threshold_bps: t,
                })
                &&& final(self).compaction_meta@ == old(self).compaction_meta@.insert(asset, meta)
                &&& final(self).compaction_frame(old(self), asset)
            },
    {
        if caller != self.config.admin {
            return Err(ErrorCode::NotAuthorized);
        }
        if !self.is_asset_registered(asset) {
            return Err(ErrorCode::AssetNotRegistered);
        }
        let empty: Vec<PriceHistoryEntry> = Vec::new();
        let h: &Vec<PriceHistoryEntry> = match self.histories.get(&asset) {
            Some(h) => h,
            None => &empty,
        };
        assert(h@ == self.history(asset) && ledgers_increasing(h@));
        let (kept, meta) = compact_history(h, self.config.compaction_threshold_bps, now.sequence);
        proof {
            lemma_compact_ordered(h@, self.config.compaction_threshold_bps);
        }
        self.histories.insert(asset, kept);
        self.compaction_meta.insert(asset, meta);
        proof {
            assert(self.histories@.remove(asset) =~= old(self).histories@.remove(asset));
        }
        Ok(meta)
    }

    /// The latest compaction record of `asset`.
    pub fn get_compaction_metadata(&self, asset: u64) -> (r: Option<CompactionMetadata>)
        ensures
            r == (if self.compaction_meta@.contains_key(asset) { Some(self.compaction_meta@[asset]) } else { None }),
    {
        match self.compaction_meta.get(&asset) {
            Some(m) => Some(*m),
            None => None,
        }
    }
}

} // verus!
