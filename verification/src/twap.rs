//! Time-weighted average prices over a window of ledgers, arithmetic or
//! geometric (through the Q32.32 logarithm and exponential).

use vstd::prelude::*;
use crate::arith::{clamp_i128, div_trunc, sat_add, sat_mul};
use crate::fixed::{exp2_fixed, exp2_fixed_spec, lemma_log2_fixed_range, log2_fixed, log2_fixed_spec};
use crate::history::{find_insert_point, insert_point};
use crate::oracle::PriceOracleContract;
use crate::types::{LedgerInfo, PriceData, PriceHistoryEntry, TwapMethod};

verus! {

broadcast use vstd::std_specs::hash::group_hash_axioms;

/// Recorded prices older than position `k` of the history, newest first, down
/// to and including the first one at or before `start`.
pub open spec fn twap_history(h: Seq<PriceHistoryEntry>, k: int, start: u32) -> Seq<(u32, i128)>
    decreases k,
{
    if k <= 0 || k > h.len() {
        Seq::empty()
    } else {
        let e = h[k - 1];
        seq![(e.ledger, e.price)] + if e.ledger <= start { Seq::empty() } else { twap_history(h, k - 1, start) }
    }
}

/// Price points of a window ending at `current`: the current price, then
/// the recorded prices before `current`, newest first.
pub open spec fn twap_snapshots(h: Seq<PriceHistoryEntry>, start: u32, current: u32, cur_price: i128) -> Seq<(u32, i128)> {
    seq![(current, cur_price)] + twap_history(h, insert_point(h, current as int), start)
}

/// Running sums of a window walk: total weight, weighted price sum,
/// weighted logarithm sum, the lower boundary reached, and whether the
/// window start has been reached.
pub struct TwapSums {
    pub total: int,
    pub weighted_price: int,
    pub weighted_log2: int,
    pub boundary: int,
    pub done: bool,
}

/// One price point `snap` weighs the ledgers from its own ledger (or the
/// window start, if later) up to the boundary left by the newer points.
pub open spec fn twap_step(acc: TwapSums, snap: (u32, i128), start: u32, geometric: bool) -> TwapSums {
    if acc.done {
        acc
    } else {
        let seg: int = if snap.0 < start { start as int } else { snap.0 as int };
        if acc.boundary > seg {
            let w = acc.boundary - seg;
            TwapSums {
                total: acc.total + w,
                weighted_price: clamp_i128(acc.weighted_price + clamp_i128(snap.1 * w)),
                weighted_log2: if geometric {
                    clamp_i128(acc.weighted_log2 + clamp_i128(log2_fixed_spec(snap.1 as nat) * w))
                } else {
                    acc.weighted_log2
                },
                boundary: seg,
                done: seg == start,
            }
        } else {
            TwapSums { done: seg == start, ..acc }
        }
    }
}

/// The sums after walking `snaps` in order from the boundary `top`.
pub open spec fn twap_fold(snaps: Seq<(u32, i128)>, start: u32, geometric: bool, top: int) -> TwapSums
    decreases snaps.len(),
{
    if snaps.len() == 0 {
        TwapSums { total: 0, weighted_price: 0, weighted_log2: 0, boundary: top, done: false }
    } else {
        twap_step(twap_fold(snaps.drop_last(), start, geometric, top), snaps.last(), start, geometric)
    }
}

/// Time-weighted average of the window `[start, current]` of history `h`,
/// where `cur_price` holds at `current`; `None` when no ledger is covered.
/// Averages round toward zero; the geometric one averages logarithms.
pub open spec fn twap_value(h: Seq<PriceHistoryEntry>, start: u32, current: u32, cur_price: i128, geometric: bool) -> Option<i128> {
    let top: int = if current == u32::MAX { u32::MAX as int } else { current + 1 };
    let acc = twap_fold(twap_snapshots(h, start, current, cur_price), start, geometric, top);
    if acc.total == 0 {
        None
    } else if geometric {
        Some(exp2_fixed_spec(div_trunc(acc.weighted_log2, acc.total)) as i128)
    } else {
        Some(div_trunc(acc.weighted_price, acc.total) as i128)
    }
}

/// Whether every price of the history and `cur_price` is positive.
pub open spec fn all_positive(h: Seq<PriceHistoryEntry>, cur_price: i128) -> bool {
    cur_price > 0 && forall|i: int| 0 <= i < h.len() ==> #[trigger] h[i].price > 0
}

/// The price points of a window (see `twap_snapshots`).
pub fn collect_snapshots(h: &Vec<PriceHistoryEntry>, start: u32, current: u32, cur_price: i128) -> (r: Vec<(u32, i128)>)
    ensures
        r@ == twap_snapshots(h@, start, current, cur_price),
{
    let k = find_insert_point(h, current);
    let ghost full = twap_snapshots(h@, start, current, cur_price);
    let mut snaps: Vec<(u32, i128)> = Vec::new();
    snaps.push((current, cur_price));
    let mut j: usize = k;
    let mut stop = false;
    assert(k <= h.len()) by {
        lemma_insert_point_bound(h@, current as int);
    }
    while j > 0 && !stop
        invariant
            j <= k <= h.len(),
            full == twap_snapshots(h@, start, current, cur_price),
            k == insert_point(h@, current as int),
            stop ==> snaps@ == full,
            !stop ==> snaps@ + twap_history(h@, j as int, start) == full,
        decreases j + if stop { 0int } else { 1int },
    {
        let e = h[j - 1];
        let ghost before = snaps@;
        snaps.push((e.ledger, e.price));
        if e.ledger <= start {
            stop = true;
            assert(snaps@ =~= before + twap_history(h@, j as int, start));
        } else {
            assert(snaps@ + twap_history(h@, j - 1, start) =~= before + twap_history(h@, j as int, start));
            j = j - 1;
        }
    }
    if !stop {
        assert(snaps@ =~= snaps@ + twap_history(h@, j as int, start));
    }
    snaps
}

/// Walks the price points of a window and returns the time-weighted
/// average (see `twap_value`), `None` when no ledger is covered.
pub fn weigh_snapshots(snaps: &Vec<(u32, i128)>, start: u32, current: u32, geometric: bool) -> (r: Option<i128>)
    requires
        geometric ==> forall|i: int| 0 <= i < snaps.len() ==> #[trigger] snaps@[i].1 > 0,
    ensures
        ({
            let top: int = if current == u32::MAX { u32::MAX as int } else { current + 1 };
            let acc = twap_fold(snaps@, start, geometric, top);
            r == if acc.total == 0 {
                None
            } else if geometric {
                Some(exp2_fixed_spec(div_trunc(acc.weighted_log2, acc.total)) as i128)
            } else {
                Some(div_trunc(acc.weighted_price, acc.total) as i128)
            }
        }),
{
    let top: u32 = current.saturating_add(1);
    let ghost topi: int = top as int;
    let n = snaps.len();
    let mut total: u64 = 0;
    let mut wp: i128 = 0;
    let mut wl: i128 = 0;
    let mut nb: u32 = top;
    let mut done = false;
    let mut i: usize = 0;
    while i < n
        invariant
            n == snaps.len(),
            0 <= i <= n,
            topi == top as int,
            geometric ==> forall|j: int| 0 <= j < snaps.len() ==> #[trigger] snaps@[j].1 > 0,
            twap_fold(snaps@.subrange(0, i as int), start, geometric, topi)
                == (TwapSums { total: total as int, weighted_price: wp as int, weighted_log2: wl as int, boundary: nb as int, done }),
            total + nb == top,
            geometric ==> -32 * 4294967296 * total <= wl <= 96 * 4294967296 * total,
        decreases n - i,
    {
        let (l, p) = snaps[i];
        proof {
            assert(snaps@.subrange(0, i + 1).drop_last() =~= snaps@.subrange(0, i as int));
            assert(snaps@.subrange(0, i + 1).last() == snaps@[i as int]);
        }
        if !done {
            let seg: u32 = if l < start { start } else { l };
            if nb > seg {
                let w: u32 = nb - seg;
                let ghost old_total = total;
                let ghost old_wl = wl;
                total = total + w as u64;
                wp = sat_add(wp, sat_mul(p, w as i128));
                if geometric {
                    let lg = log2_fixed(p);
                    proof {
                        lemma_log2_fixed_range(p as nat);
                        assert(-32 * 4294967296 * w <= lg * w <= 96 * 4294967296 * w) by (nonlinear_arith)
                            requires -32 * 4294967296 <= lg < 96 * 4294967296, w >= 0;
                        assert(-32 * 4294967296 * (old_total + w) == -32 * 4294967296 * old_total + -32 * 4294967296 * w) by (nonlinear_arith);
                        assert(96 * 4294967296 * (old_total + w) == 96 * 4294967296 * old_total + 96 * 4294967296 * w) by (nonlinear_arith);
                        assert(96 * 4294967296 * (old_total + w) <= 96 * 4294967296 * 4294967296) by (nonlinear_arith)
                            requires old_total + w <= 4294967296;
                    }
                    wl = sat_add(wl, sat_mul(lg, w as i128));
                }
                nb = seg;
            }
            if seg == start {
                done = true;
            }
        }
        i = i + 1;
    }
    proof {
        assert(snaps@.subrange(0, n as int) =~= snaps@);
    }
    if total == 0 {
        return None;
    }
    if geometric {
        let avg: i128 = wl / (total as i128);
        proof {
            assert(div_trunc(wl as int, total as int) >= -32 * 4294967296) by (nonlinear_arith)
                requires -32 * 4294967296 * total <= wl, total > 0;
        }
        Some(exp2_fixed(avg))
    } else {
        Some(wp / (total as i128))
    }
}

impl PriceOracleContract {
    /// Time-weighted average price of `asset` over the ledgers `start` to
    /// `now.sequence`, the current aggregate holding at `now.sequence`;
    /// `None` without an aggregate or when no ledger is covered.
    pub fn compute_twap_window(&self, asset: u64, start: u32, method: TwapMethod, now: LedgerInfo) -> (r: Option<PriceData>)
        requires
            self.wf(),
            method == TwapMethod::Geometric && self.aggregate(asset) is Some
                ==> all_positive(self.history(asset), self.aggregate(asset).unwrap().price),
        ensures
            r == match self.aggregate(asset) {
                None => None,
                Some(a) => match twap_value(self.history(asset), start, now.sequence, a.price, method == TwapMethod::Geometric) {
                    None => None,
                    Some(p) => Some(PriceData { price: p, timestamp: now.timestamp, last_updated: now.sequence }),
                },
            },
    {
        let cur = match self.aggregates.get(&asset) {
            Some(a) => *a,
            None => {
                return None;
            },
        };
        let empty: Vec<PriceHistoryEntry> = Vec::new();
        let h: &Vec<PriceHistoryEntry> = match self.histories.get(&asset) {
            Some(h) => h,
            None => &empty,
        };
        assert(h@ == self.history(asset));
        let snaps = collect_snapshots(h, start, now.sequence, cur.price);
        let geometric = match method {
            TwapMethod::Geometric => true,
            TwapMethod::Arithmetic => false,
        };
        proof {
            if geometric {
                lemma_snapshots_positive(h@, start, now.sequence, cur.price);
            }
        }
        match weigh_snapshots(&snaps, start, now.sequence, geometric) {
            None => None,
            Some(p) => Some(PriceData { price: p, timestamp: now.timestamp, last_updated: now.sequence }),
        }
    }
}

/// The insertion point lies within the history.
pub proof fn lemma_insert_point_bound(s: Seq<PriceHistoryEntry>, ledger: int)
    ensures
        0 <= insert_point(s, ledger) <= s.len(),
    decreases s.len(),
{
    if s.len() > 0 {
        lemma_insert_point_bound(s.drop_last(), ledger);
    }
}

/// Every price point of a window comes from the history or is the current
/// price.
pub proof fn lemma_snapshots_positive(h: Seq<PriceHistoryEntry>, start: u32, current: u32, cur_price: i128)
    requires
        all_positive(h, cur_price),
    ensures
        forall|i: int| 0 <= i < twap_snapshots(h, start, current, cur_price).len()
            ==> #[trigger] twap_snapshots(h, start, current, cur_price)[i].1 > 0,
{
    lemma_history_positive(h, insert_point(h, current as int), start);
    let s = twap_snapshots(h, start, current, cur_price);
    let t = twap_history(h, insert_point(h, current as int), start);
    assert forall|i: int| 0 <= i < s.len() implies #[trigger] s[i].1 > 0 by {
        if i > 0 {
            assert(s[i] == t[i - 1]);
        }
    }
}

proof fn lemma_history_positive(h: Seq<PriceHistoryEntry>, k: int, start: u32)
    requires
        forall|i: int| 0 <= i < h.len() ==> #[trigger] h[i].price > 0,
    ensures
        forall|i: int| 0 <= i < twap_history(h, k, start).len() ==> #[trigger] twap_history(h, k, start)[i].1 > 0,
    decreases k,
{
    if 0 < k <= h.len() {
        lemma_history_positive(h, k - 1, start);
        let t = twap_history(h, k, start);
        let e = h[k - 1];
        let rest = if e.ledger <= start { Seq::<(u32, i128)>::empty() } else { twap_history(h, k - 1, start) };
        assert forall|i: int| 0 <= i < t.len() implies #[trigger] t[i].1 > 0 by {
            if i > 0 {
                assert(t[i] == rest[i - 1]);
            }
        }
    }
}

} // verus!
