//! Properties of the oracle that span several operations or hold of every
//! input, stated over the specification functions that the operations'
//! contracts use.

use vstd::prelude::*;
use crate::history::{compact_spec, compaction_witness, ledgers_increasing, lemma_compact_idempotent, lemma_compact_structure, lemma_insert_point, should_skip_spec, spread_apart, upsert_spec};
use crate::types::{AggregatePrice, PriceEntry, PriceHistoryEntry};
use crate::aggregation::{contributions_in, select_spec, submission_in};
use crate::oracle::{lemma_pair_key_injective, pair_key_spec};
use crate::arith::{div_trunc, lemma_sorted_seq_facts, sorted_asc, sorted_seq};
use crate::fixed::{
    exp2_fixed_spec, exp2_frac_spec, floor_log2, lemma_exp2_fixed_integral, lemma_exp2_fixed_range, lemma_exp2_frac_mono,
    lemma_exp2_frac_range, lemma_log2_fixed_integer_part, lemma_log2_fixed_mono, lemma_log2_fixed_p2, log2_fixed_spec, p2,
};
use crate::heartbeat::adaptive_interval_spec;
use crate::ibc::{normalize_spec, IbcOracle, IbcPricePacket};
use crate::migration::batch_end;
use crate::multisig::MultiSig;
use crate::ohlcv::{bar_consistent, lemma_ohlcv_bars_consistent, ohlcv_spec};
use crate::ohlcv::{last_closed, OhlcvBar, OhlcvCache};
use crate::oracle::PriceOracleContract;
use crate::stats::{median_of_sorted, median_spec, mid2};
use crate::layerzero::LayerZero;
use crate::operations::{OperationStatus, Operations};
use crate::rbac::Rbac;
use crate::rotation::Rotation;
use crate::types::{ErrorCode, LedgerInfo};

verus! {

broadcast use vstd::seq_lib::group_to_multiset_ensures;

/// The median of a non-empty list of prices lies between its smallest and
/// its largest price.
pub proof fn law_median_within_range(s: Seq<i128>)
    requires
        s.len() > 0,
    ensures
        exists|i: int| 0 <= i < s.len() && s[i] <= median_spec(s),
        exists|j: int| 0 <= j < s.len() && median_spec(s) <= s[j],
{
    lemma_sorted_seq_facts(s);
    let t = sorted_seq(s);
    let n = t.len();
    let lo: int = if n % 2 == 1 { (n / 2) as int } else { (n / 2 - 1) as int };
    let hi: int = (n / 2) as int;
    assert(t[lo] <= t[hi]);
    assert(t[lo] as int <= median_of_sorted(t) <= t[hi] as int);
    assert(t.to_multiset().count(t[lo]) > 0);
    assert(s.to_multiset().count(t[lo]) > 0);
    assert(s.contains(t[lo]));
    assert(t.to_multiset().count(t[hi]) > 0);
    assert(s.to_multiset().count(t[hi]) > 0);
    assert(s.contains(t[hi]));
}

/// The heartbeat interval of a source is never shorter than the base
/// interval nor longer than three times it (short of `u64::MAX`).
pub proof fn law_adaptive_interval_bounds(base: u64, misses: u32, window: u32)
    ensures
        adaptive_interval_spec(base, misses, window) >= base || adaptive_interval_spec(base, misses, window) == u64::MAX,
        adaptive_interval_spec(base, misses, window) <= 3 * base,
{
    let w: int = if window == 0 { 1 } else { window as int };
    let f: int = (w + misses) / w;
    assert(f >= 1) by (nonlinear_arith)
        requires f == (w + misses) / w, w >= 1, misses >= 0;
    let c: int = if f > 3 { 3 } else { f };
    assert(base * c >= base && base * c <= 3 * base) by (nonlinear_arith)
        requires 1 <= c <= 3, base >= 0;
}

/// The more heartbeats a source missed in a window, the longer (or equal)
/// the interval it is granted.
pub proof fn law_adaptive_interval_monotonic(base: u64, misses1: u32, misses2: u32, window: u32)
    requires
        misses1 <= misses2,
    ensures
        adaptive_interval_spec(base, misses1, window) <= adaptive_interval_spec(base, misses2, window),
{
    let w: int = if window == 0 { 1 } else { window as int };
    vstd::arithmetic::div_mod::lemma_div_is_ordered(w + misses1, w + misses2, w);
    let f1: int = (w + misses1) / w;
    let f2: int = (w + misses2) / w;
    assert(f1 >= 1) by (nonlinear_arith)
        requires f1 == (w + misses1) / w, w >= 1, misses1 >= 0;
    let c1: int = if f1 > 3 { 3 } else { f1 };
    let c2: int = if f2 > 3 { 3 } else { f2 };
    assert(base * c1 <= base * c2) by (nonlinear_arith)
        requires c1 <= c2, base >= 0;
}

/// Re-expressing a price with more decimals and back gives the price again,
/// as long as the scaled price fits in an `i128`.
pub proof fn law_normalize_round_trip(price: i128, src: u32, tgt: u32)
    requires
        src < tgt,
        i128::MIN <= price * crate::ibc::pow10((tgt - src) as nat) <= i128::MAX,
    ensures
        normalize_spec(normalize_spec(price, src, tgt) as i128, tgt, src) == price,
{
    let k = crate::ibc::pow10((tgt - src) as nat);
    crate::ibc::lemma_pow10_grows((tgt - src) as nat);
    let up = price * k;
    assert(normalize_spec(price, src, tgt) == up);
    if price >= 0 {
        assert(up >= 0) by (nonlinear_arith)
            requires up == price * k, price >= 0, k >= 1;
        vstd::arithmetic::div_mod::lemma_div_multiples_vanish(price as int, k);
        assert(k * price == up) by (nonlinear_arith)
            requires up == price * k;
    } else {
        assert(up < 0) by (nonlinear_arith)
            requires up == price * k, price < 0, k >= 1;
        vstd::arithmetic::div_mod::lemma_div_multiples_vanish(-price, k);
        assert(k * (-price) == -up) by (nonlinear_arith)
            requires up == price * k;
    }
    assert(div_trunc(up, k) == price);
}

/// Re-expressing a price with the same number of decimals leaves it as it
/// is, and dropping decimals divides by the matching power of ten with the
/// quotient truncated toward zero (so it never grows in magnitude).
pub proof fn law_normalize_identity_and_truncation(price: i128, src: u32, tgt: u32)
    requires
        tgt < src,
    ensures
        normalize_spec(price, src, src) == price,
        normalize_spec(price, src, tgt) == div_trunc(price as int, crate::ibc::pow10((src - tgt) as nat)),
        price >= 0 ==> 0 <= normalize_spec(price, src, tgt) <= price,
        price < 0 ==> price <= normalize_spec(price, src, tgt) <= 0,
{
    let k = crate::ibc::pow10((src - tgt) as nat);
    crate::ibc::lemma_pow10_grows((src - tgt) as nat);
    if price >= 0 {
        let p: int = price as int;
        assert(0 <= p / k <= p) by (nonlinear_arith)
            requires p >= 0, k >= 1;
    } else {
        let q: int = -(price as int);
        assert(0 <= q / k <= q) by (nonlinear_arith)
            requires q > 0, k >= 1;
    }
}

/// A price packet that was accepted is refused as a replay when presented
/// again: once its sequence is recorded as the denom's latest, the same
/// packet fails with `IbcPacketReplayed` (the mapping, the light client and
/// the consensus states being as they were).
pub proof fn law_ibc_packet_not_replayable(before: &IbcOracle, after: &IbcOracle, packet: IbcPricePacket, proof: Seq<[u8; 32]>, path_bits: u32, now: u64)
    requires
        before.packet_check(packet, proof, path_bits, now) is Ok,
        after.last_sequence(packet.denom@) == packet.sequence,
        forall|d: Seq<char>| #[trigger] after.asset_of(d) == before.asset_of(d),
        after.client == before.client,
        after.consensus@ == before.consensus@,
    ensures
        after.packet_check(packet, proof, path_bits, now) == Err::<(), ErrorCode>(ErrorCode::IbcPacketReplayed),
{
    assert(after.asset_of(packet.denom@) == before.asset_of(packet.denom@));
}

/// A reveal is accepted only for a commitment made in that round, not yet
/// revealed, whose hash is the commitment of the revealed price and salt,
/// and only inside the reveal window.
pub proof fn law_reveal_matches_commitment(c: &PriceOracleContract, source: u64, asset: u64, price: i128, salt: Seq<u8>, round: u32, now: LedgerInfo)
    requires
        c.reveal_check(source, asset, price, salt, round, now) is Ok,
    ensures
        c.commit_of(asset, source, round) is Some,
        !c.commit_of(asset, source, round).unwrap().revealed,
        c.commit_of(asset, source, round).unwrap().hash@ == crate::commit_reveal::commit_hash_spec(price, salt, round),
        round + c.config.commit_window <= now.sequence < round + c.config.commit_window + c.config.reveal_window,
{
}

/// A commitment is revealed at most once: after a successful reveal, the
/// same reveal in the same ledger is refused with `AlreadyCommitted`.
pub proof fn law_reveal_only_once(before: &PriceOracleContract, after: &PriceOracleContract, source: u64, asset: u64, price: i128, salt: Seq<u8>, round: u32, now: LedgerInfo, r: Result<Option<crate::types::AggregatePrice>, ErrorCode>)
    requires
        before.reveal_step(after, source, asset, price, salt, round, now, r),
        r is Ok,
    ensures
        after.reveal_check(source, asset, price, salt, round, now) == Err::<(), ErrorCode>(ErrorCode::AlreadyCommitted),
{
    let agg = r->Ok_0;
    let mid = choose|mid: PriceOracleContract| before.reveal_stored(&mid, source, asset, price, round, now)
        && #[trigger] mid.guarded_step(after, asset, now.sequence, agg);
    assert(mid.commit_of(asset, source, round) == after.commit_of(asset, source, round));
    assert(mid.commit_of(asset, source, round).unwrap().revealed);
}

/// Only the head of the governance queue can be executed, and only once it
/// has its quorum of approvals and its timelock has run out.
pub proof fn law_multisig_executes_head_with_quorum(ms: &MultiSig, executor: u64, op_id: u32, now: LedgerInfo)
    requires
        ms.execute_check(executor, op_id, now) is Ok,
    ensures
        ms.queue@.len() > 0,
        ms.queue@[0].id == op_id,
        ms.queue@[0].approvals@.len() >= ms.queue@[0].required_approvals,
        ms.queue@[0].timelock_start_ledger != 0,
        now.sequence - ms.queue@[0].timelock_start_ledger >= ms.timelock_duration,
{
}

/// While the oracle is paused every price submission is refused with
/// `ContractPaused`.
pub proof fn law_paused_refuses_submissions(c: &PriceOracleContract, source: u64, asset: u64, price: i128, timestamp: u64, nonce: u64, now: LedgerInfo)
    requires
        c.config.paused,
    ensures
        c.submit_check(source, asset, price, timestamp, nonce, now) == Err::<(), ErrorCode>(ErrorCode::ContractPaused),
{
}

/// An active override takes precedence: until its expiry ledger, the price
/// reported for the asset is the override's price, marked as an override.
pub proof fn law_override_takes_precedence(c: &PriceOracleContract, asset: u64, max_age: u64, now: LedgerInfo)
    requires
        c.override_of(asset) is Some,
        now.sequence <= c.override_of(asset).unwrap().expiry_ledger,
    ensures
        c.price_spec(asset, max_age, now) is Some,
        c.price_spec(asset, max_age, now).unwrap().price == c.override_of(asset).unwrap().price,
        c.price_spec(asset, max_age, now).unwrap().is_override,
{
}


/// A LayerZero delivery is accepted at most once: once its nonce is the
/// pathway's last, the same delivery is refused as out of order (the
/// configuration being as it was).
pub proof fn law_lz_delivery_not_replayable(before: &LayerZero, after: &LayerZero, paused: bool, endpoint: u64, src_eid: u32, sender: Seq<u8>, nonce: u64)
    requires
        before.receive_check(paused, endpoint, src_eid, sender, nonce) is Ok,
        after.nonce_of(src_eid, sender) == nonce,
        after.endpoint == before.endpoint,
    ensures
        after.receive_check(paused, endpoint, src_eid, sender, nonce) == Err::<(u64, Seq<char>), ErrorCode>(ErrorCode::LzNonceOutOfOrder)
            || after.receive_check(paused, endpoint, src_eid, sender, nonce) == Err::<(u64, Seq<char>), ErrorCode>(ErrorCode::ArithmeticOverflow),
{
}

/// LayerZero deliveries on a pathway are accepted in nonce order only: a
/// delivery is accepted only with the nonce right after the last one.
pub proof fn law_lz_nonce_in_order(lz: &LayerZero, paused: bool, endpoint: u64, src_eid: u32, sender: Seq<u8>, nonce: u64)
    requires
        lz.receive_check(paused, endpoint, src_eid, sender, nonce) is Ok,
    ensures
        nonce == lz.nonce_of(src_eid, sender) + 1,
{
}

/// The administrator holds every role.
pub proof fn law_admin_holds_every_role(rb: &Rbac, role: crate::rbac::Role)
    ensures
        rb.has_role_spec(rb.admin, role),
{
}

/// An operation executes only once every operation it depends on exists
/// and has executed.
pub proof fn law_execute_needs_dependencies(ops: &Operations, id: Seq<char>)
    requires
        ops.wf(),
        ops.execute_check(id) is Ok,
    ensures
        ops.pos(id) >= 0,
        ops.statuses@[ops.pos(id)] == OperationStatus::Pending,
        forall|k: int| 0 <= k < ops.ops@[ops.pos(id)].depends_on@.len() ==>
            #[trigger] ops.status_of(ops.ops@[ops.pos(id)].depends_on@[k]@) == Some(OperationStatus::Executed),
{
    let deps = ops.ops@[ops.pos(id)].depends_on@;
    lemma_deps_check_all(ops, deps, 0);
}

proof fn lemma_deps_check_all(ops: &Operations, deps: Seq<String>, k: int)
    requires
        0 <= k,
        ops.deps_check(deps, k) is Ok,
    ensures
        forall|j: int| k <= j < deps.len() ==> #[trigger] ops.status_of(deps[j]@) == Some(OperationStatus::Executed),
    decreases deps.len() - k,
{
    if k < deps.len() {
        lemma_deps_check_all(ops, deps, k + 1);
    }
}

/// Rotating twice brings back the original active and standby sets.
pub proof fn law_rotation_twice_restores(r0: &Rotation, r1: &Rotation, r2: &Rotation, asset: u64)
    requires
        r1.active_of(asset) == r0.standby_of(asset),
        r1.standby_of(asset) == r0.active_of(asset),
        r2.active_of(asset) == r1.standby_of(asset),
        r2.standby_of(asset) == r1.active_of(asset),
    ensures
        r2.active_of(asset) == r0.active_of(asset),
        r2.standby_of(asset) == r0.standby_of(asset),
{
}

/// The last closed bar of `bars` for `bars[i]`'s bucket start is `bars[i]`
/// when no later bar starts there.
proof fn lemma_last_closed_is(bars: Seq<OhlcvBar>, current: u64, i: int)
    requires
        0 <= i < bars.len(),
        bars[i].bucket_start < current,
        forall|j: int| i < j < bars.len() ==> bars[j].bucket_start != bars[i].bucket_start,
    ensures
        last_closed(bars, bars[i].bucket_start, current) == Some(bars[i]),
    decreases bars.len(),
{
    if i < bars.len() - 1 {
        let shorter = bars.drop_last();
        assert(shorter[i] == bars[i]);
        assert forall|j: int| i < j < shorter.len() implies shorter[j].bucket_start != shorter[i].bucket_start by {
            assert(shorter[j] == bars[j]);
        }
        lemma_last_closed_is(shorter, current, i);
    }
}

/// A bar returned for a closed bucket reads back from the cache afterwards:
/// once a bars query has remembered what it computed, the cached bar of
/// that asset, width and bucket start is the returned bar (the last one,
/// should several start at the same time).
pub proof fn law_closed_bar_reads_back(before: OhlcvCache, after: OhlcvCache, asset: u64, bucket_seconds: u64, bars: Seq<OhlcvBar>, current: u64, i: int)
    requires
        before.caches_closed(&after, asset, bucket_seconds, bars, current),
        0 <= i < bars.len(),
        bars[i].bucket_start < current,
        forall|j: int| i < j < bars.len() ==> bars[j].bucket_start != bars[i].bucket_start,
    ensures
        after.cached_of(asset, bucket_seconds, bars[i].bucket_start) == Some(bars[i]),
{
    lemma_last_closed_is(bars, current, i);
}

/// A bars query leaves the cached bars of every other asset or bucket width
/// as they were.
pub proof fn law_cache_of_others_unchanged(before: OhlcvCache, after: OhlcvCache, asset: u64, bucket_seconds: u64, bars: Seq<OhlcvBar>, current: u64, a: u64, w: u64, start: u64)
    requires
        before.caches_closed(&after, asset, bucket_seconds, bars, current),
        a != asset || w != bucket_seconds,
    ensures
        after.cached_of(a, w, start) == before.cached_of(a, w, start),
{
}

/// Compacting an asset's history a second time, with the same threshold,
/// leaves it as the first compaction did.
pub proof fn law_compaction_idempotent(c0: PriceOracleContract, c1: PriceOracleContract, c2: PriceOracleContract, asset: u64)
    requires
        c1.history(asset) == compact_spec(c0.history(asset), c0.config.compaction_threshold_bps),
        c1.config == c0.config,
        c2.history(asset) == compact_spec(c1.history(asset), c1.config.compaction_threshold_bps),
    ensures
        c2.history(asset) == c1.history(asset),
{
    lemma_compact_idempotent(c0.history(asset), c0.config.compaction_threshold_bps);
}

/// With a zero threshold, or at most one entry, compaction changes nothing.
pub proof fn law_compaction_noop(c0: PriceOracleContract, c1: PriceOracleContract, asset: u64)
    requires
        c1.history(asset) == compact_spec(c0.history(asset), c0.config.compaction_threshold_bps),
        c0.config.compaction_threshold_bps == 0 || c0.history(asset).len() <= 1,
    ensures
        c1.history(asset) == c0.history(asset),
{
}

/// Whether one aggregation's pruning budget covers dropping everything
/// beyond both history caps, for a history of `n` entries.
pub open spec fn prune_budget_suffices(n: int, max_len: int, per_asset: int, budget: int) -> bool {
    let over1 = if n > max_len { n - max_len } else { 0 };
    let n1 = n - over1;
    let over2 = if n1 > per_asset { n1 - per_asset } else { 0 };
    over1 + over2 <= budget
}

/// After an aggregation the asset's history stays in strictly increasing
/// ledger order (so the current ledger occurs at most once), and when the
/// pruning budget suffices it holds at most `max_history_length` and at most
/// `max_history_per_asset` entries.
pub proof fn law_aggregation_history_bounded(c0: PriceOracleContract, c1: PriceOracleContract, asset: u64, agg: AggregatePrice, ledger: u32)
    requires
        c0.wf(),
        c1.wf(),
        c1.history(asset) == c0.history_after(asset, agg, ledger),
    ensures
        ledgers_increasing(c1.history(asset)),
        forall|i: int, j: int| 0 <= i < j < c1.history(asset).len() ==> c1.history(asset)[i].ledger != c1.history(asset)[j].ledger,
        prune_budget_suffices(c0.history(asset).len() + 1int, c0.config.max_history_length as int,
            c0.config.max_history_per_asset as int, c0.config.max_events_per_call as int)
            ==> c1.history(asset).len() <= c0.config.max_history_length
                && c1.history(asset).len() <= c0.config.max_history_per_asset,
{
    let h0 = c0.history(asset);
    assert(ledgers_increasing(h0));
    let e = PriceHistoryEntry { price: agg.price, timestamp: agg.timestamp, ledger, num_sources: agg.num_sources, is_interpolated: false };
    lemma_insert_point(h0, ledger as int);
    assert(upsert_spec(h0, e).len() <= h0.len() + 1);
}

/// The Q32.32 logarithm of a positive value has the integer part of its
/// highest set bit (less 32) and fraction bits below `2^32`.
pub proof fn law_log2_fixed_integer_part(x: nat)
    requires
        x >= 1,
    ensures
        (floor_log2(x) as int - 32) * 4294967296 <= log2_fixed_spec(x) < (floor_log2(x) as int - 31) * 4294967296,
{
    lemma_log2_fixed_integer_part(x);
}

/// The Q32.32 logarithm `r` of a positive value `x` never overstates the
/// binary logarithm of `x / 2^32` and falls short of it by less than one:
/// `r / 2^32 <= log2(x / 2^32) < r / 2^32 + 1`, stated with both sides raised
/// to the power `2^32` (`2^(r + 32 * 2^32) <= x^(2^32) < 2^(r + 33 * 2^32)`).
pub proof fn law_log2_fixed_rounds_down(x: nat)
    requires
        x >= 1,
    ensures
        log2_fixed_spec(x) + 32 * 4294967296 >= 0,
        vstd::arithmetic::power::pow(2, (log2_fixed_spec(x) + 32 * 4294967296) as nat) <= vstd::arithmetic::power::pow(x as int, 4294967296),
        vstd::arithmetic::power::pow(x as int, 4294967296) < vstd::arithmetic::power::pow(2, (log2_fixed_spec(x) + 33 * 4294967296) as nat),
{
    crate::fixed::lemma_log2_fixed_brackets(x);
}

/// The Q32.32 logarithm is monotonic: `0 < a <= b` gives
/// `log2_fixed(a) <= log2_fixed(b)`.
pub proof fn law_log2_fixed_monotonic(a: nat, b: nat)
    requires
        1 <= a <= b,
    ensures
        log2_fixed_spec(a) <= log2_fixed_spec(b),
{
    lemma_log2_fixed_mono(a, b);
}

/// The fractional exponential maps `[0, 1)` into `[1.0, 2.0)`, gives exactly
/// `1.0` at 0, and is monotonic.
pub proof fn law_exp2_frac_range_and_monotonic(f1: int, f2: int)
    requires
        0 <= f1 <= f2 < 4294967296,
    ensures
        4294967296 <= exp2_frac_spec(f1) < 8589934592,
        exp2_frac_spec(0) == 4294967296,
        exp2_frac_spec(f1) <= exp2_frac_spec(f2),
{
    lemma_exp2_frac_range(f1);
    crate::fixed::lemma_exp2_frac_zero();
    lemma_exp2_frac_mono(f1, f2);
}

/// The fractional exponential only ever rounds down: for a fraction `f` in
/// `[0, 1)` (Q32.32) its result never exceeds `2^32` times the exact value
/// of the degree-six Taylor polynomial of `e^t` at
/// `t = f * ln2_q32 / 2^64`, where `ln2_q32` is `ln 2` in Q32.32 rounded
/// down (`exp2_taylor_scaled` is that exact value times `720 * 2^352`).
pub proof fn law_exp2_frac_rounds_down(f: int)
    requires
        0 <= f < 4294967296,
    ensures
        720 * (4294967296 * 4294967296 * 4294967296 * 4294967296 * 4294967296 * 4294967296 * 4294967296 * 4294967296
            * 4294967296 * 4294967296 * 4294967296) * exp2_frac_spec(f) <= crate::fixed::exp2_taylor_scaled(f * crate::fixed::ln2_q32()),
{
    crate::fixed::lemma_exp2_frac_below_taylor(f);
}

/// The exponential of a Q32.32 exponent with integer part `i` in `0..=94`
/// lies in `[2^(32 + i), 2^(33 + i))`; a negative integer part shifts the
/// fractional exponential right; an integer part of 96 or more saturates.
pub proof fn law_exp2_fixed_range(log2: int)
    ensures
        0 <= log2 / 4294967296 <= 94 ==> p2((32 + log2 / 4294967296) as nat) <= exp2_fixed_spec(log2) < p2((33 + log2 / 4294967296) as nat),
        log2 / 4294967296 < 0 ==> exp2_fixed_spec(log2)
            == exp2_frac_spec(log2 % 4294967296) / (p2((-(log2 / 4294967296)) as nat) as int),
        log2 / 4294967296 >= 96 ==> exp2_fixed_spec(log2) == i128::MAX,
{
    lemma_exp2_fixed_range(log2);
}

/// On powers of two the exponential exactly inverts the logarithm:
/// `exp2_fixed(log2_fixed(2^k)) == 2^k` for `k <= 126`.
pub proof fn law_exp2_inverts_log2_on_powers_of_two(k: nat)
    requires
        k <= 126,
    ensures
        exp2_fixed_spec(log2_fixed_spec(p2(k))) == p2(k),
{
    lemma_log2_fixed_p2(k);
    lemma_exp2_fixed_integral(k);
}

/// The migration cursor after `k` more batches of `b` items over `total`
/// assets, starting at `c` (each batch moves it as `migrate_storage` does).
pub open spec fn cursor_after(c: u32, b: u32, total: nat, k: nat) -> int
    decreases k,
{
    if k == 0 || c >= total {
        c as int
    } else {
        let e = batch_end(c, b, total);
        if e > u32::MAX { e } else { cursor_after(e as u32, b, total, (k - 1) as nat) }
    }
}

/// Every batch of a running migration moves the cursor forward: after `k`
/// batches of `b >= 1` items the cursor has reached at least
/// `min(total, c + k * b)`, so `ceil(total / b)` batches finish it.
pub proof fn law_migration_finishes(c: u32, b: u32, total: nat, k: nat)
    requires
        b >= 1,
        total <= u32::MAX,
    ensures
        cursor_after(c, b, total, k) >= if c + k * b < total { c + k * b } else { total as int },
    decreases k,
{
    assert(k * b >= 0) by (nonlinear_arith) requires b >= 1;
    if k == 0 {
        assert(k * b == 0) by (nonlinear_arith) requires k == 0;
    } else if c < total {
        let e = batch_end(c, b, total);
        assert(e <= total);
        law_migration_finishes(e as u32, b, total, (k - 1) as nat);
        assert(c + k * b == c + b + (k - 1) * b) by (nonlinear_arith);
        assert((k - 1) * b >= 0) by (nonlinear_arith) requires k >= 1, b >= 1;
    }
}

/// Compaction with a positive threshold of a history of two or more entries
/// keeps its first and last entries, keeps a subsequence in order, keeps
/// consecutive retained entries beyond the threshold of each other, and
/// drops only entries within the threshold of the retained entry before
/// them (`compaction_witness`).
pub proof fn law_compaction_structure(c0: PriceOracleContract, c1: PriceOracleContract, asset: u64)
    requires
        c1.history(asset) == compact_spec(c0.history(asset), c0.config.compaction_threshold_bps),
        c0.config.compaction_threshold_bps > 0,
        c0.history(asset).len() >= 2,
    ensures
        c1.history(asset)[0] == c0.history(asset)[0],
        c1.history(asset).last() == c0.history(asset).last(),
        exists|idx: Seq<int>| compaction_witness(c0.history(asset), c1.history(asset), idx, c0.config.compaction_threshold_bps),
        spread_apart(c1.history(asset), c1.history(asset).len() - 1, c0.config.compaction_threshold_bps),
{
    lemma_compact_structure(c0.history(asset), c0.config.compaction_threshold_bps);
}

/// Every bar a bars query returns has its open and close between its low and
/// high, at least one sample and a start aligned to the bucket width.
pub proof fn law_ohlcv_bars_well_formed(bars: Seq<OhlcvBar>, c: PriceOracleContract, asset: u64, bucket_seconds: u64, from: u64, to: u64)
    requires
        bucket_seconds > 0,
        bars == ohlcv_spec(c.history(asset), bucket_seconds, from, to),
    ensures
        forall|j: int| 0 <= j < bars.len() ==> bar_consistent(#[trigger] bars[j], bucket_seconds),
{
    lemma_ohlcv_bars_consistent(c.history(asset), bucket_seconds, from, to);
}

/// When an aggregation at a ledger no earlier than any recorded one writes
/// its entry (compaction does not skip it) and both history caps are at
/// least one, the history ends with that entry: the published price, its
/// timestamp and source count, at the current ledger, not interpolated.
pub proof fn law_aggregation_records_entry(c0: PriceOracleContract, c1: PriceOracleContract, asset: u64, agg: AggregatePrice, ledger: u32)
    requires
        c0.wf(),
        c1.history(asset) == c0.history_after(asset, agg, ledger),
        !should_skip_spec(c0.history(asset), c0.config.compaction_threshold_bps, ledger, agg.price),
        forall|i: int| 0 <= i < c0.history(asset).len() ==> #[trigger] c0.history(asset)[i].ledger <= ledger,
        c0.config.max_history_length >= 1,
        c0.config.max_history_per_asset >= 1,
    ensures
        c1.history(asset).len() >= 1,
        c1.history(asset).last() == (PriceHistoryEntry {
            price: agg.price, timestamp: agg.timestamp, ledger, num_sources: agg.num_sources, is_interpolated: false,
        }),
{
    let h0 = c0.history(asset);
    let e = PriceHistoryEntry { price: agg.price, timestamp: agg.timestamp, ledger, num_sources: agg.num_sources, is_interpolated: false };
    assert(ledgers_increasing(h0));
    lemma_insert_point(h0, ledger as int);
    let i = crate::history::insert_point(h0, ledger as int);
    let j = if i < h0.len() && h0[i].ledger == e.ledger { i + 1 } else { i };
    if j < h0.len() {
        assert(h0[j].ledger >= ledger);
        if i < h0.len() && h0[i].ledger == e.ledger {
            assert(h0[i].ledger < h0[j].ledger);
        }
        assert(false);
    }
    let h1 = upsert_spec(h0, e);
    assert(h0.subrange(j, h0.len() as int) =~= Seq::<PriceHistoryEntry>::empty());
    assert(h1 =~= h0.subrange(0, i).push(e));
    assert(h1.last() == e);
}

/// The submissions counted from `sel` once `source`'s entry is stored (no
/// interval filter) are one per selected source that is `source` or already
/// has a submission for `asset`.
proof fn lemma_contributions_count(subs: Map<u128, PriceEntry>, last: Map<u128, u32>, asset: u64, source: u64, e: PriceEntry, sel: Seq<u64>, ledger: u32)
    ensures
        contributions_in(subs.insert(pair_key_spec(asset, source), e), last, asset, sel, 0, ledger).len()
            == sel.filter(|s: u64| s == source || submission_in(subs, asset, s) is Some).len(),
    decreases sel.len(),
{
    let pred = |s: u64| s == source || submission_in(subs, asset, s) is Some;
    reveal(Seq::filter);
    if sel.len() > 0 {
        lemma_contributions_count(subs, last, asset, source, e, sel.drop_last(), ledger);
        let src = sel.last();
        lemma_pair_key_injective(asset, src, asset, source);
        let subs2 = subs.insert(pair_key_spec(asset, source), e);
        assert((submission_in(subs2, asset, src) is Some) == pred(src));
    }
}

/// With no cap on the sources taking part, the candidate aggregate of a
/// submission counts the registered sources that have a price for the asset,
/// `source`'s new one included: it exists exactly when that count is positive
/// and reaches the minimum number of sources, and it then carries that count,
/// the configured decimals, no override mark and version 0.
pub proof fn law_candidate_counts_priced_sources(c: &PriceOracleContract, asset: u64, source: u64, price: i128, timestamp: u64, ledger: u32)
    requires
        c.config.max_aggregation_sources == 0,
    ensures
        ({
            let n = c.sources@.filter(|s: u64| s == source || c.submission(asset, s) is Some).len();
            let r = c.candidate_spec(asset, source, price, timestamp, ledger);
            &&& r is Some <==> n >= c.config.min_sources_required && n > 0
            &&& r is Some ==> r.unwrap().num_sources == n as u32 && r.unwrap().decimals == c.config.decimals
                && !r.unwrap().is_override && r.unwrap().version == 0
        }),
{
    let e = crate::submission::submitted_entry(price, timestamp, source, 0, 0, 0, None);
    lemma_contributions_count(c.submissions@, c.last_submission@, asset, source, e, c.sources@, ledger);
    assert(select_spec(c.sources@, c.config.max_aggregation_sources, ledger) == c.sources@);
    let p1 = |s: u64| s == source || c.submission(asset, s) is Some;
    let p2 = |s: u64| s == source || submission_in(c.submissions@, asset, s) is Some;
    assert(p1 =~= p2);
}

/// A trimmed mean that trims nothing (fewer than `100 / pct` values) is the
/// plain mean of the values, `sum / n` rounded toward zero, whenever the
/// sum cannot saturate; with five values at 10%, `[100, 101, 102, 103, 200]`
/// averages to 121.
pub proof fn law_trimmed_mean_without_trimming_is_mean(s: Seq<i128>, pct: int)
    requires
        s.len() > 0,
        pct >= 0,
        s.len() * pct / 100 == 0,
        crate::stats::abs_sum(s) <= i128::MAX,
    ensures
        crate::stats::trimmed_mean_spec(s, pct) == crate::stats::mean_spec(s),
        crate::stats::trimmed_mean_spec(s, pct) == div_trunc(crate::stats::exact_sum(s), s.len() as int),
{
    let n = s.len() as int;
    let t = sorted_seq(s);
    lemma_sorted_seq_facts(s);
    assert(t.subrange(0, n) =~= t);
    crate::stats::lemma_sums_permutation(s, t);
    crate::stats::lemma_sat_sum_exact(s);
    crate::stats::lemma_sat_sum_exact(t);
}

/// Trimming `k` values from each end of `s` leaves the mean of the `n - 2k`
/// middle values in sorted order: the trimmed mean times the number of
/// values kept is, up to rounding toward zero, their sum (no saturation).
pub proof fn law_trimmed_mean_averages_the_middle(s: Seq<i128>, pct: int)
    requires
        s.len() > 0,
        pct >= 0,
        2 * (s.len() * pct / 100) < s.len(),
        crate::stats::abs_sum(s) <= i128::MAX,
    ensures
        ({
            let n = s.len() as int;
            let k = n * pct / 100;
            let kept = sorted_seq(s).subrange(k, n - k);
            let m = crate::stats::trimmed_mean_spec(s, pct);
            let total = crate::stats::exact_sum(kept);
            &&& total >= 0 ==> m * (n - 2 * k) <= total < (m + 1) * (n - 2 * k)
            &&& total < 0 ==> (m - 1) * (n - 2 * k) < total <= m * (n - 2 * k)
        }),
{
    let n = s.len() as int;
    let k = n * pct / 100;
    let t = sorted_seq(s);
    lemma_sorted_seq_facts(s);
    let kept = t.subrange(k, n - k);
    crate::stats::lemma_sums_permutation(s, t);
    lemma_abs_sum_subrange(t, k, n - k);
    crate::stats::lemma_sat_sum_exact(kept);
    let total = crate::stats::exact_sum(kept);
    let c = n - 2 * k;
    let m = div_trunc(total, c);
    if total >= 0 {
        assert(m * c <= total < (m + 1) * c) by (nonlinear_arith)
            requires m == total / c, c > 0, total >= 0;
    } else {
        let q = (-total) / c;
        assert(q * c <= -total < (q + 1) * c) by (nonlinear_arith)
            requires q == (-total) / c, c > 0, total < 0;
        assert(m == -q);
        assert((m - 1) * c < total <= m * c) by (nonlinear_arith)
            requires m == -q, q * c <= -total, -total < (q + 1) * c, c > 0;
    }
}

/// The absolute values of a contiguous part of `t` sum to no more than
/// those of `t`.
proof fn lemma_abs_sum_subrange(t: Seq<i128>, i: int, j: int)
    requires
        0 <= i <= j <= t.len(),
    ensures
        crate::stats::abs_sum(t.subrange(i, j)) <= crate::stats::abs_sum(t),
    decreases t.len(),
{
    if j < t.len() {
        lemma_abs_sum_subrange(t.drop_last(), i, j);
        assert(t.drop_last().subrange(i, j) =~= t.subrange(i, j));
        lemma_abs_sum_nonneg(t.drop_last());
    } else if i < j {
        lemma_abs_sum_subrange(t.drop_last(), i, j - 1);
        assert(t.subrange(i, j).drop_last() =~= t.drop_last().subrange(i, j - 1));
        assert(t.subrange(i, j).last() == t.last());
    } else {
        assert(t.subrange(i, j) =~= Seq::<i128>::empty());
        lemma_abs_sum_nonneg(t);
    }
}

proof fn lemma_abs_sum_nonneg(t: Seq<i128>)
    ensures
        crate::stats::abs_sum(t) >= 0,
    decreases t.len(),
{
    if t.len() > 0 {
        lemma_abs_sum_nonneg(t.drop_last());
    }
}

/// Interpolating between a recorded entry `b` and a later one `a` moves
/// from `b`'s price toward `a`'s as the ledger advances: the interpolated
/// prices stay between the two, are ordered as their ledgers are, and lie no
/// further from `b`'s price than the share `(ledger - b.ledger) /
/// (a.ledger - b.ledger)` of the whole difference. The entry is marked as
/// interpolated and carries the requested ledger.
pub proof fn law_interpolation_moves_toward_later_entry(b: PriceHistoryEntry, a: PriceHistoryEntry, l1: u32, l2: u32)
    requires
        b.ledger < l1 <= l2 < a.ledger,
        crate::history::interpolate_spec(b, a, l1) is Some,
        crate::history::interpolate_spec(b, a, l2) is Some,
    ensures
        ({
            let e1 = crate::history::interpolate_spec(b, a, l1).unwrap();
            let e2 = crate::history::interpolate_spec(b, a, l2).unwrap();
            let range = a.ledger - b.ledger;
            &&& e1.ledger == l1 && e1.is_interpolated
            &&& b.price <= a.price ==> b.price <= e1.price <= e2.price <= a.price
            &&& a.price <= b.price ==> a.price <= e2.price <= e1.price <= b.price
            &&& b.price <= a.price ==> (e1.price - b.price) * range <= (a.price - b.price) * (l1 - b.ledger)
            &&& a.price <= b.price ==> (b.price - e1.price) * range <= (b.price - a.price) * (l1 - b.ledger)
        }),
{
    let r: int = a.ledger - b.ledger;
    let o1: int = l1 - b.ledger;
    let o2: int = l2 - b.ledger;
    let dp: int = a.price - b.price;
    if dp >= 0 {
        let q1 = (dp * o1) / r;
        let q2 = (dp * o2) / r;
        assert(0 <= q1 <= q2 <= dp && q1 * r <= dp * o1) by (nonlinear_arith)
            requires q1 == (dp * o1) / r, q2 == (dp * o2) / r, 0 < o1 <= o2 < r, dp >= 0;
    } else {
        let q1 = (-dp * o1) / r;
        let q2 = (-dp * o2) / r;
        assert(dp * o1 == -(-dp * o1)) by (nonlinear_arith);
        assert(dp * o2 == -(-dp * o2)) by (nonlinear_arith);
        assert(0 <= q1 <= q2 <= -dp && q1 * r <= -dp * o1) by (nonlinear_arith)
            requires q1 == (-dp * o1) / r, q2 == (-dp * o2) / r, 0 < o1 <= o2 < r, dp < 0;
        assert(div_trunc(dp * o1, r) == -q1);
        assert(div_trunc(dp * o2, r) == -q2);
    }
}

/// The newest entry of `h` recorded within ledgers `[lo, hi]` and stamped at
/// or before `t`, if there is one; none newer within the window qualifies.
proof fn lemma_newest_at_or_before(h: Seq<PriceHistoryEntry>, lo: u32, hi: u32, t: u64)
    ensures
        match crate::queries::newest_at_or_before(h, lo, hi, t) {
            Some(e) => exists|i: int| 0 <= i < h.len() && h[i] == e && lo <= e.ledger <= hi && e.timestamp <= t
                && forall|j: int| i < j < h.len() && lo <= #[trigger] h[j].ledger <= hi ==> h[j].timestamp > t,
            None => forall|j: int| 0 <= j < h.len() && lo <= #[trigger] h[j].ledger <= hi ==> h[j].timestamp > t,
        },
    decreases h.len(),
{
    if h.len() > 0 {
        let d = h.drop_last();
        lemma_newest_at_or_before(d, lo, hi, t);
        let e = h.last();
        if lo <= e.ledger && e.ledger <= hi && e.timestamp <= t {
            assert(h[h.len() - 1] == e);
        } else {
            match crate::queries::newest_at_or_before(d, lo, hi, t) {
                Some(f) => {
                    let i = choose|i: int| 0 <= i < d.len() && d[i] == f && lo <= f.ledger <= hi && f.timestamp <= t
                        && forall|j: int| i < j < d.len() && lo <= #[trigger] d[j].ledger <= hi ==> d[j].timestamp > t;
                    assert(h[i] == f);
                    assert forall|j: int| i < j < h.len() && lo <= #[trigger] h[j].ledger <= hi implies h[j].timestamp > t by {
                        if j < h.len() - 1 {
                            assert(d[j] == h[j]);
                        }
                    }
                },
                None => {
                    assert forall|j: int| 0 <= j < h.len() && lo <= #[trigger] h[j].ledger <= hi implies h[j].timestamp > t by {
                        if j < h.len() - 1 {
                            assert(d[j] == h[j]);
                        }
                    }
                },
            }
        }
    }
}

/// SEP-40 `price` at a timestamp `t` never answers with a record stamped
/// after `t`. Unless the aggregate itself is stamped `t`, the answer is the
/// record of the lookback window (the last 1000 ledgers up to now) stamped
/// at or before `t` that was recorded last; when there is none, there is no
/// answer.
pub proof fn law_price_at_timestamp_is_newest_not_after(c: PriceOracleContract, asset: u64, t: u64, now: LedgerInfo)
    ensures
        c.price_at_spec(asset, t, now) matches Some(d) ==> d.timestamp <= t,
        ({
            let h = c.history(asset);
            let lo = crate::queries::sub_floor(now.sequence, crate::queries::PRICE_LOOKBACK_LEDGERS);
            let exact = c.aggregate(asset) is Some && c.aggregate(asset).unwrap().timestamp == t;
            &&& c.is_asset_spec(asset) && !exact && c.price_at_spec(asset, t, now) is Some ==> exists|i: int|
                0 <= i < h.len() && lo <= h[i].ledger <= now.sequence && h[i].timestamp <= t
                && c.price_at_spec(asset, t, now) == Some(crate::queries::entry_data(h[i]))
                && forall|j: int| i < j < h.len() && lo <= #[trigger] h[j].ledger <= now.sequence ==> h[j].timestamp > t
            &&& c.is_asset_spec(asset) && !exact && c.price_at_spec(asset, t, now) is None ==>
                forall|j: int| 0 <= j < h.len() && lo <= #[trigger] h[j].ledger <= now.sequence ==> h[j].timestamp > t
        }),
{
    let lo = crate::queries::sub_floor(now.sequence, crate::queries::PRICE_LOOKBACK_LEDGERS);
    lemma_newest_at_or_before(c.history(asset), lo, now.sequence, t);
}

/// Walking price points from boundary `top` down to `start`: the weight
/// handed out plus the boundary reached is `top`, the boundary never passes
/// below `start`, the walk stops exactly at `start`, and it stops once a
/// point at or before `start` has been walked.
proof fn lemma_twap_fold_window(snaps: Seq<(u32, i128)>, start: u32, geometric: bool, top: int)
    requires
        start <= top,
    ensures
        ({
            let acc = crate::twap::twap_fold(snaps, start, geometric, top);
            &&& acc.total >= 0
            &&& acc.total + acc.boundary == top
            &&& start <= acc.boundary <= top
            &&& acc.done ==> acc.boundary == start
            &&& (exists|i: int| 0 <= i < snaps.len() && #[trigger] snaps[i].0 <= start) ==> acc.done
        }),
    decreases snaps.len(),
{
    if snaps.len() > 0 {
        let d = snaps.drop_last();
        lemma_twap_fold_window(d, start, geometric, top);
        if exists|i: int| 0 <= i < snaps.len() && #[trigger] snaps[i].0 <= start {
            let i = choose|i: int| 0 <= i < snaps.len() && #[trigger] snaps[i].0 <= start;
            if i < snaps.len() - 1 {
                assert(d[i] == snaps[i]);
            }
        }
    }
}

/// A window's history points, newest first, reach an entry at or before
/// `start` whenever one is recorded below position `k`.
proof fn lemma_twap_history_reaches(h: Seq<PriceHistoryEntry>, k: int, start: u32, j: int)
    requires
        ledgers_increasing(h),
        0 <= j < k <= h.len(),
        h[j].ledger <= start,
    ensures
        exists|i: int| 0 <= i < crate::twap::twap_history(h, k, start).len() && #[trigger] crate::twap::twap_history(h, k, start)[i].0 <= start,
    decreases k,
{
    let th = crate::twap::twap_history(h, k, start);
    let e = h[k - 1];
    if e.ledger <= start {
        assert(th[0].0 == e.ledger);
    } else {
        assert(j < k - 1);
        lemma_twap_history_reaches(h, k - 1, start, j);
        let rest = crate::twap::twap_history(h, k - 1, start);
        let i = choose|i: int| 0 <= i < rest.len() && #[trigger] rest[i].0 <= start;
        assert(th[i + 1] == rest[i]);
    }
}

/// A time-weighted average over `[start, current]` weighs only ledgers of
/// the window: the total weight never exceeds `current - start + 1` (the
/// ledgers of the window), so a price recorded before `start` counts from
/// `start` on. When the history holds an entry at or before `start`, the
/// whole window is covered and the total weight is exactly the window's
/// length.
pub proof fn law_twap_weights_only_the_window(h: Seq<PriceHistoryEntry>, start: u32, current: u32, cur_price: i128, geometric: bool)
    requires
        start <= current,
    ensures
        ({
            let top: int = if current == u32::MAX { u32::MAX as int } else { current + 1 };
            let acc = crate::twap::twap_fold(crate::twap::twap_snapshots(h, start, current, cur_price), start, geometric, top);
            &&& 0 <= acc.total <= top - start
            &&& ledgers_increasing(h) && (exists|j: int| 0 <= j < h.len() && #[trigger] h[j].ledger <= start)
                ==> acc.total == top - start
        }),
{
    let top: int = if current == u32::MAX { u32::MAX as int } else { current + 1 };
    let snaps = crate::twap::twap_snapshots(h, start, current, cur_price);
    lemma_twap_fold_window(snaps, start, geometric, top);
    if ledgers_increasing(h) && (exists|j: int| 0 <= j < h.len() && #[trigger] h[j].ledger <= start) {
        let j = choose|j: int| 0 <= j < h.len() && #[trigger] h[j].ledger <= start;
        let k = crate::history::insert_point(h, current as int);
        lemma_insert_point(h, current as int);
        if h[j].ledger < current {
            assert(j < k);
            lemma_twap_history_reaches(h, k, start, j);
            let th = crate::twap::twap_history(h, k, start);
            let i = choose|i: int| 0 <= i < th.len() && #[trigger] th[i].0 <= start;
            assert(snaps[i + 1] == th[i]);
            assert(snaps[i + 1].0 <= start);
        } else {
            assert(snaps[0].0 == current);
            assert(current <= start);
            assert(snaps[0].0 <= start);
        }
    }
}

/// A trade against a constant-product pool keeps the product of the
/// reserves: with the fee of `fee_bps` basis points taken off the input
/// first (`a * (10_000 - fee_bps) / 10_000` goes into the pool), the output
/// `out` is the most the pool can pay without its reserve product falling
/// below `r_in * r_out`; it is positive and at most `r_out`.
pub proof fn law_impact_keeps_reserve_product(amount_in: i128, r_in: i128, r_out: i128, fee_bps: u32)
    requires
        r_in > 0,
        r_out > 0,
        fee_bps <= 10_000,
        crate::market_impact::impact_spec(amount_in, r_in, r_out, fee_bps) is Ok,
    ensures
        ({
            let out = crate::market_impact::impact_spec(amount_in, r_in, r_out, fee_bps)->Ok_0.0;
            let e: int = amount_in * (10_000 - fee_bps) / 10_000;
            &&& 0 < out <= r_out
            &&& (r_in + e) * (r_out - out) <= r_in * r_out
            &&& r_in * r_out < (r_in + e) * (r_out - out + 1)
        }),
{
    let e: int = amount_in * (10_000 - fee_bps) / 10_000;
    let k: int = r_in * r_out;
    assert(0 <= e <= amount_in) by (nonlinear_arith)
        requires e == amount_in * (10_000 - fee_bps) / 10_000, amount_in > 0, 0 <= fee_bps <= 10_000;
    let n = r_in + e;
    assert(n <= u128::MAX);
    assert(k >= 0) by (nonlinear_arith) requires k == r_in * r_out, r_in > 0, r_out > 0;
    let q = k / n;
    assert(q * n <= k < (q + 1) * n) by (nonlinear_arith)
        requires q == k / n, n > 0, k >= 0;
    let out = crate::market_impact::impact_spec(amount_in, r_in, r_out, fee_bps)->Ok_0.0;
    assert(out == r_out - q);
    assert((r_in + e) * (r_out - out) == q * n) by (nonlinear_arith)
        requires n == r_in + e, out == r_out - q;
    assert((r_in + e) * (r_out - out + 1) == (q + 1) * n) by (nonlinear_arith)
        requires n == r_in + e, out == r_out - q;
}

/// A higher fee never gets the trader more: for the same trade and pool,
/// raising `fee_bps` can only lower (or keep) the output, so a pool with a
/// fee never pays out more than the same pool without one.
pub proof fn law_impact_output_falls_with_fee(amount_in: i128, r_in: i128, r_out: i128, f1: u32, f2: u32)
    requires
        r_in > 0,
        r_out > 0,
        f1 <= f2 <= 10_000,
        crate::market_impact::impact_spec(amount_in, r_in, r_out, f1) is Ok,
        crate::market_impact::impact_spec(amount_in, r_in, r_out, f2) is Ok,
    ensures
        crate::market_impact::impact_spec(amount_in, r_in, r_out, f2)->Ok_0.0
            <= crate::market_impact::impact_spec(amount_in, r_in, r_out, f1)->Ok_0.0,
{
    let e1: int = amount_in * (10_000 - f1) / 10_000;
    let e2: int = amount_in * (10_000 - f2) / 10_000;
    assert(0 <= e2 <= e1 <= amount_in) by (nonlinear_arith)
        requires e1 == amount_in * (10_000 - f1) / 10_000, e2 == amount_in * (10_000 - f2) / 10_000,
            amount_in > 0, 0 <= f1 <= f2 <= 10_000;
    let k: int = r_in * r_out;
    assert(k >= 0) by (nonlinear_arith) requires k == r_in * r_out, r_in > 0, r_out > 0;
    let n1 = r_in + e1;
    let n2 = r_in + e2;
    assert(n1 <= u128::MAX && n2 <= u128::MAX);
    assert(k / n1 <= k / n2) by (nonlinear_arith)
        requires 0 < n2 <= n1, k >= 0;
}

/// Walking points that all carry price `p`: the weighted price sum is
/// `p` times the weight handed out, while it fits in an `i128`.
proof fn lemma_twap_fold_constant(snaps: Seq<(u32, i128)>, start: u32, top: int, p: i128)
    requires
        start <= top,
        forall|i: int| 0 <= i < snaps.len() ==> #[trigger] snaps[i].1 == p,
        (if p < 0 { -p } else { p as int }) * (top - start) <= i128::MAX,
    ensures
        crate::twap::twap_fold(snaps, start, false, top).weighted_price == p * crate::twap::twap_fold(snaps, start, false, top).total,
    decreases snaps.len(),
{
    if snaps.len() > 0 {
        let d = snaps.drop_last();
        assert forall|i: int| 0 <= i < d.len() implies #[trigger] d[i].1 == p by {
            assert(d[i] == snaps[i]);
        }
        lemma_twap_fold_constant(d, start, top, p);
        lemma_twap_fold_window(d, start, false, top);
        lemma_twap_fold_window(snaps, start, false, top);
        let acc = crate::twap::twap_fold(d, start, false, top);
        let fin = crate::twap::twap_fold(snaps, start, false, top);
        let ap: int = if p < 0 { -p } else { p as int };
        assert(ap * fin.total <= ap * (top - start)) by (nonlinear_arith)
            requires fin.total <= top - start, ap >= 0;
        assert(-ap * fin.total <= p * fin.total <= ap * fin.total) by (nonlinear_arith)
            requires ap == (if p < 0 { -p } else { p as int }), fin.total >= 0;
        assert(-ap * acc.total <= p * acc.total <= ap * acc.total) by (nonlinear_arith)
            requires ap == (if p < 0 { -p } else { p as int }), acc.total >= 0;
        assert(ap * acc.total <= ap * (top - start)) by (nonlinear_arith)
            requires acc.total <= top - start, ap >= 0;
        if !acc.done {
            let seg: int = if snaps.last().0 < start { start as int } else { snaps.last().0 as int };
            if acc.boundary > seg {
                let w = acc.boundary - seg;
                assert(snaps[snaps.len() - 1].1 == p);
                assert(fin.total == acc.total + w);
                assert(p * w + p * acc.total == p * (acc.total + w)) by (nonlinear_arith);
                assert(ap * fin.total == ap * acc.total + ap * w) by (nonlinear_arith)
                    requires fin.total == acc.total + w;
                assert(-ap * w <= p * w <= ap * w) by (nonlinear_arith)
                    requires ap == (if p < 0 { -p } else { p as int }), w >= 0;
                assert(ap * w <= ap * (top - start)) by (nonlinear_arith)
                    requires w <= top - start, ap >= 0, w >= 0;
                assert(w <= top - start);
                assert(ap * (top - start) <= i128::MAX);
                assert(-0x7fff_ffff_ffff_ffff_ffff_ffff_ffff_ffff <= p * w <= 0x7fff_ffff_ffff_ffff_ffff_ffff_ffff_ffff) by (nonlinear_arith)
                    requires -ap * w <= p * w <= ap * w, ap * w <= 0x7fff_ffff_ffff_ffff_ffff_ffff_ffff_ffff;
                assert(-0x7fff_ffff_ffff_ffff_ffff_ffff_ffff_ffff <= p * fin.total <= 0x7fff_ffff_ffff_ffff_ffff_ffff_ffff_ffff) by (nonlinear_arith)
                    requires -ap * fin.total <= p * fin.total <= ap * fin.total, ap * fin.total <= 0x7fff_ffff_ffff_ffff_ffff_ffff_ffff_ffff;
                assert(crate::arith::clamp_i128(snaps.last().1 * w) == p * w);
                assert(crate::arith::clamp_i128(acc.weighted_price + p * w) == p * fin.total);
                assert(fin.weighted_price == p * fin.total);
            } else {
                assert(fin.total == acc.total && fin.weighted_price == acc.weighted_price);
            }
        } else {
            assert(fin == acc);
        }
    }
}

/// A price that held throughout the window is its own arithmetic
/// time-weighted average: when the current price and every recorded price
/// equal `p` (and `p` times the window length fits in an `i128`), the TWAP
/// is `p` whenever any ledger is covered.
pub proof fn law_twap_of_constant_price(h: Seq<PriceHistoryEntry>, start: u32, current: u32, p: i128)
    requires
        start <= current,
        forall|i: int| 0 <= i < h.len() ==> #[trigger] h[i].price == p,
        (if p < 0 { -p } else { p as int }) * (current - start + 1) <= i128::MAX,
    ensures
        crate::twap::twap_value(h, start, current, p, false) is Some ==> crate::twap::twap_value(h, start, current, p, false) == Some(p),
{
    let top: int = if current == u32::MAX { u32::MAX as int } else { current + 1 };
    let snaps = crate::twap::twap_snapshots(h, start, current, p);
    lemma_twap_history_prices(h, crate::history::insert_point(h, current as int), start, p);
    assert forall|i: int| 0 <= i < snaps.len() implies #[trigger] snaps[i].1 == p by {
        if i > 0 {
            assert(snaps[i] == crate::twap::twap_history(h, crate::history::insert_point(h, current as int), start)[i - 1]);
        }
    }
    let ap: int = if p < 0 { -p } else { p as int };
    assert(ap * (top - start) <= ap * (current - start + 1)) by (nonlinear_arith)
        requires top <= current + 1, ap >= 0, top >= start;
    lemma_twap_fold_window(snaps, start, false, top);
    lemma_twap_fold_constant(snaps, start, top, p);
    let acc = crate::twap::twap_fold(snaps, start, false, top);
    if acc.total != 0 {
        assert(acc.weighted_price == p * acc.total);
        vstd::arithmetic::div_mod::lemma_div_multiples_vanish(p as int, acc.total);
        if p < 0 {
            assert(-(p * acc.total) == (-p) * acc.total) by (nonlinear_arith);
            vstd::arithmetic::div_mod::lemma_div_multiples_vanish(-p, acc.total);
            assert(acc.total * (-p) == (-p) * acc.total) by (nonlinear_arith);
            assert(p * acc.total < 0) by (nonlinear_arith) requires p < 0, acc.total > 0;
        } else {
            assert(p * acc.total >= 0) by (nonlinear_arith) requires p >= 0, acc.total > 0;
            assert(acc.total * p == p * acc.total) by (nonlinear_arith);
        }
    }
}

/// The history points of a window carry the prices recorded in `h`.
proof fn lemma_twap_history_prices(h: Seq<PriceHistoryEntry>, k: int, start: u32, p: i128)
    requires
        forall|i: int| 0 <= i < h.len() ==> #[trigger] h[i].price == p,
    ensures
        forall|i: int| 0 <= i < crate::twap::twap_history(h, k, start).len() ==> #[trigger] crate::twap::twap_history(h, k, start)[i].1 == p,
    decreases k,
{
    if 0 < k <= h.len() {
        lemma_twap_history_prices(h, k - 1, start, p);
        let th = crate::twap::twap_history(h, k, start);
        let e = h[k - 1];
        if e.ledger > start {
            let rest = crate::twap::twap_history(h, k - 1, start);
            assert forall|i: int| 0 <= i < th.len() implies #[trigger] th[i].1 == p by {
                if i > 0 {
                    assert(th[i] == rest[i - 1]);
                }
            }
        }
    }
}

} // verus!
