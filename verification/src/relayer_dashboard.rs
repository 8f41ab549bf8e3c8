//! Per-relayer operational metrics: running latency sums, submission and
//! latency histories, per-asset counts, and the dashboard built from them
//! (success rate, throughput, latency percentiles, rank among relayers).

use vstd::prelude::*;
use std::collections::HashMap;
use crate::arith::{sort_prices, sorted_seq};

verus! {

broadcast use vstd::std_specs::hash::group_hash_axioms;

/// Approximate number of ledgers per day (5-second ledgers).
pub const LEDGERS_PER_DAY: u32 = 17_280;

/// Running per-asset counters of one relayer.
#[derive(Clone, Copy, Debug, PartialEq, Eq, Structural)]
pub struct AssetCounters {
    pub submissions: u64,
    pub latency_sum: u64,
    pub latency_count: u64,
}

/// Running counters of one relayer.
pub struct RelayerMetrics {
    pub latency_sum: u64,
    /// Observation timestamps of its submissions, in order.
    pub submission_history: Vec<u64>,
    /// Latencies of its submissions, in order.
    pub latency_history: Vec<u64>,
    /// Assets it has submitted for, in order of first submission.
    pub assets: Vec<u64>,
    pub per_asset: HashMap<u64, AssetCounters>,
}

/// Counters of all relayers.
pub struct RelayerStats {
    pub metrics: HashMap<u64, RelayerMetrics>,
}

/// Per-asset figures of a dashboard.
#[derive(Clone, Copy, Debug, PartialEq, Eq, Structural)]
pub struct RelayerAssetStat {
    pub asset: u64,
    pub submissions: u64,
    pub successful_submissions: u64,
    pub failed_submissions: u32,
    pub success_rate_bps: u32,
    pub avg_latency_seconds: u64,
}

/// A relayer's dashboard.
pub struct RelayerDashboard {
    pub relayer: u64,
    pub total_submissions: u64,
    pub failed_submissions: u32,
    pub success_rate_bps: u32,
    pub submissions_per_day: u64,
    pub avg_latency_seconds: u64,
    pub submission_history: Vec<u64>,
    /// Latency at the 50th, 90th, 95th and 99th percentiles (empty without
    /// submissions).
    pub latency_percentiles: Vec<(u32, u64)>,
    pub fee_earnings: i128,
    pub reward_earnings: i128,
    pub bond_deposited: i128,
    pub percentile_rank: u32,
    pub per_asset: Vec<RelayerAssetStat>,
}

/// Distance between observation and ledger close.
pub open spec fn latency_spec(observation: u64, ledger_time: u64) -> u64 {
    if ledger_time >= observation { (ledger_time - observation) as u64 } else { (observation - ledger_time) as u64 }
}

/// `a + b`, saturating.
pub open spec fn sat_add_u64(a: u64, b: u64) -> u64 {
    if a + b > u64::MAX { u64::MAX } else { (a + b) as u64 }
}

/// `a * b`, saturating.
pub open spec fn sat_mul_u64(a: u64, b: u64) -> u64 {
    if a * b > u64::MAX { u64::MAX } else { (a * b) as u64 }
}

/// Success rate in basis points: `submissions * 10000 / attempts` (both
/// saturating), with at least one attempt counted.
pub open spec fn success_bps(submissions: u64, failed: u64) -> u32 {
    let attempts = sat_add_u64(submissions, failed);
    let denom: u64 = if attempts == 0 { 1 } else { attempts };
    (sat_mul_u64(submissions, 10_000) / denom) as u32
}

fn sat_add64(a: u64, b: u64) -> (r: u64)
    ensures
        r == sat_add_u64(a, b),
{
    a.saturating_add(b)
}

fn sat_mul64(a: u64, b: u64) -> (r: u64)
    ensures
        r == sat_mul_u64(a, b),
{
    match a.checked_mul(b) {
        Some(v) => v,
        None => u64::MAX,
    }
}

/// Success rate in basis points (see `success_bps`).
pub fn success_rate_bps(submissions: u64, failed: u64) -> (r: u32)
    ensures
        r == success_bps(submissions, failed),
        r <= 10_000,
{
    let attempts = sat_add64(submissions, failed);
    let denom: u64 = if attempts == 0 { 1 } else { attempts };
    let scaled = sat_mul64(submissions, 10_000);
    proof {
        if submissions > 0 {
            assert(scaled <= submissions * 10_000);
            assert(denom >= submissions);
            assert(scaled / denom <= 10_000) by (nonlinear_arith)
                requires scaled <= submissions * 10_000, denom >= submissions, submissions > 0;
        } else {
            assert(scaled == 0);
        }
    }
    (scaled / denom) as u32
}

/// Index of the `pct`-th percentile in a sorted list of `len > 0` values.
pub open spec fn percentile_index(len: nat, pct: u32) -> int {
    let scaled = (len * pct) / 100;
    let idx = if scaled >= 1 { scaled - 1 } else { 0 };
    if idx < len - 1 { idx } else { len - 1 }
}

/// The values as `i128`.
pub open spec fn widen(s: Seq<u64>) -> Seq<i128> {
    s.map_values(|x: u64| x as i128)
}

/// The 50th/90th/95th/99th percentile latencies of `lat` (empty for none).
pub open spec fn percentiles_spec(lat: Seq<u64>) -> Seq<(u32, u64)> {
    if lat.len() == 0 {
        Seq::empty()
    } else {
        let s = sorted_seq(widen(lat));
        seq![
            (50u32, s[percentile_index(lat.len(), 50)] as u64),
            (90u32, s[percentile_index(lat.len(), 90)] as u64),
            (95u32, s[percentile_index(lat.len(), 95)] as u64),
            (99u32, s[percentile_index(lat.len(), 99)] as u64),
        ]
    }
}

/// Value of the `pct`-th percentile of the sorted values.
fn percentile_of(sorted: &Vec<i128>, pct: u32) -> (r: (u32, u64))
    requires
        sorted.len() > 0,
        sorted.len() * 99 <= u32::MAX,
        pct <= 99,
    ensures
        r == (pct, sorted@[percentile_index(sorted@.len(), pct)] as u64),
{
    let len = sorted.len() as u32;
    assert(len as int * pct <= u32::MAX) by (nonlinear_arith)
        requires len as int * 99 <= u32::MAX, pct <= 99;
    let scaled = (len * pct) / 100;
    let i = scaled.saturating_sub(1);
    let idx = if i < len - 1 { i } else { len - 1 };
    (pct, sorted[idx as usize] as u64)
}

/// Latency percentiles of a relayer's submissions (see `percentiles_spec`).
pub fn compute_latency_percentiles(latencies: &Vec<u64>) -> (r: Vec<(u32, u64)>)
    requires
        latencies.len() * 99 <= u32::MAX,
    ensures
        r@ == percentiles_spec(latencies@),
{
    if latencies.len() == 0 {
        return Vec::new();
    }
    let mut wide: Vec<i128> = Vec::new();
    let mut i: usize = 0;
    while i < latencies.len()
        invariant
            0 <= i <= latencies.len(),
            wide@ == widen(latencies@.subrange(0, i as int)),
        decreases latencies.len() - i,
    {
        wide.push(latencies[i] as i128);
        i = i + 1;
        assert(wide@ =~= widen(latencies@.subrange(0, i as int)));
    }
    assert(latencies@.subrange(0, latencies.len() as int) =~= latencies@);
    let ghost w = wide@;
    sort_prices(&mut wide);
    proof {
        crate::arith::lemma_sorted_seq_facts(w);
    }
    let mut out: Vec<(u32, u64)> = Vec::new();
    out.push(percentile_of(&wide, 50));
    out.push(percentile_of(&wide, 90));
    out.push(percentile_of(&wide, 95));
    out.push(percentile_of(&wide, 99));
    assert(out@ =~= percentiles_spec(latencies@));
    out
}

/// Rank of `total` among relayers with submission counts `counts`: the
/// percentage of them at or below it (0 when there are none).
pub open spec fn rank_spec(counts: Seq<u64>, total: u64) -> u32 {
    if counts.len() == 0 {
        0
    } else {
        ((counts.filter(|c: u64| c <= total).len() * 100) / counts.len()) as u32
    }
}

/// Percentile rank of `total` among `counts` (see `rank_spec`).
pub fn compute_percentile_rank(counts: &Vec<u64>, total: u64) -> (r: u32)
    requires
        counts.len() * 100 <= u32::MAX,
    ensures
        r == rank_spec(counts@, total),
        r <= 100,
{
    let n = counts.len();
    if n == 0 {
        return 0;
    }
    let ghost pred = |c: u64| c <= total;
    let mut le: u32 = 0;
    let mut i: usize = 0;
    while i < n
        invariant
            n == counts.len(),
            0 <= i <= n,
            n * 100 <= u32::MAX,
            pred == (|c: u64| c <= total),
            le == counts@.subrange(0, i as int).filter(pred).len(),
            le <= i,
        decreases n - i,
    {
        proof {
            reveal_with_fuel(Seq::<_>::filter, 1);
            assert(counts@.subrange(0, i + 1).drop_last() =~= counts@.subrange(0, i as int));
        }
        if counts[i] <= total {
            le = le + 1;
        }
        i = i + 1;
    }
    assert(counts@.subrange(0, n as int) =~= counts@);
    assert(le as int * 100 / (n as int) <= 100) by (nonlinear_arith)
        requires le <= n, n > 0;
    (le * 100) / (n as u32)
}

impl RelayerStats {
    /// No relayer has submitted yet.
    pub fn new() -> (r: RelayerStats)
        ensures
            r.metrics@ == Map::<u64, RelayerMetrics>::empty(),
    {
        RelayerStats { metrics: HashMap::new() }
    }

    /// Whether `relayer` has recorded submissions.
    pub open spec fn has(&self, relayer: u64) -> bool {
        self.metrics@.contains_key(relayer)
    }

    /// Counters of `asset` for `m` (zero when none).
    pub open spec fn asset_counters(m: &RelayerMetrics, asset: u64) -> AssetCounters {
        if m.per_asset@.contains_key(asset) {
            m.per_asset@[asset]
        } else {
            AssetCounters { submissions: 0, latency_sum: 0, latency_count: 0 }
        }
    }

    /// `after` is `self` once a submission by `relayer` for `asset`, observed
    /// at `observation` and stored in a ledger closing at `ledger_time`, has
    /// been recorded.
    pub open spec fn recorded(&self, after: &RelayerStats, relayer: u64, asset: u64, observation: u64, ledger_time: u64) -> bool {
        &&& after.has(relayer)
        &&& forall|r: u64| r != relayer ==> (#[trigger] after.metrics@.contains_key(r)) == self.metrics@.contains_key(r)
        &&& forall|r: u64| r != relayer && self.metrics@.contains_key(r) ==> #[trigger] after.metrics@[r] == self.metrics@[r]
        &&& ({
                let lat = latency_spec(observation, ledger_time);
                let m = after.metrics@[relayer];
                let had = self.has(relayer);
                let o = self.metrics@[relayer];
                let oc = if had { Self::asset_counters(&o, asset) } else { AssetCounters { submissions: 0, latency_sum: 0, latency_count: 0 } };
                &&& m.latency_sum == sat_add_u64(if had { o.latency_sum } else { 0 }, lat)
                &&& m.submission_history@ == (if had { o.submission_history@ } else { Seq::empty() }).push(observation)
                &&& m.latency_history@ == (if had { o.latency_history@ } else { Seq::empty() }).push(lat)
                &&& m.assets@ == {
                    let prev = if had { o.assets@ } else { Seq::empty() };
                    if prev.contains(asset) { prev } else { prev.push(asset) }
                }
                &&& Self::asset_counters(&m, asset) == AssetCounters {
                    submissions: sat_add_u64(oc.submissions, 1),
                    latency_sum: sat_add_u64(oc.latency_sum, lat),
                    latency_count: sat_add_u64(oc.latency_count, 1),
                }
                &&& forall|a: u64| a != asset ==> #[trigger] Self::asset_counters(&m, a)
                    == if had { Self::asset_counters(&o, a) } else { AssetCounters { submissions: 0, latency_sum: 0, latency_count: 0 } }
            })
    }

    /// Records a submission (see `recorded`): its latency is added to the
    /// relayer's sums and histories and the asset's counters grow by one.
    pub fn record_relayer_submission_stats(&mut self, relayer: u64, asset: u64, observation: u64, ledger_time: u64)
        ensures
            old(self).recorded(final(self), relayer, asset, observation, ledger_time),
    {
        let latency = if ledger_time >= observation { ledger_time - observation } else { observation - ledger_time };
        let mut m = match self.metrics.remove(&relayer) {
            Some(m) => m,
            None => RelayerMetrics {
                latency_sum: 0,
                submission_history: Vec::new(),
                latency_history: Vec::new(),
                assets: Vec::new(),
                per_asset: HashMap::new(),
            },
        };
        let ghost m0 = m;
        m.latency_sum = m.latency_sum.saturating_add(latency);
        m.submission_history.push(observation);
        m.latency_history.push(latency);
        if !crate::admin::contains_u64(&m.assets, asset) {
            m.assets.push(asset);
        }
        let c: AssetCounters = match m.per_asset.get(&asset) {
            Some(c) => *c,
            None => AssetCounters { submissions: 0, latency_sum: 0, latency_count: 0 },
        };
        let c2 = AssetCounters {
            submissions: c.submissions.saturating_add(1),
            latency_sum: c.latency_sum.saturating_add(latency),
            latency_count: c.latency_count.saturating_add(1),
        };
        m.per_asset.insert(asset, c2);
        proof {
            assert forall|a: u64| a != asset implies #[trigger] Self::asset_counters(&m, a) == Self::asset_counters(&m0, a) by {}
        }
        self.metrics.insert(relayer, m);
    }

    /// Per-asset figures of `relayer`, given its failure count.
    pub open spec fn per_asset_spec(m: &RelayerMetrics, failed: u32) -> Seq<RelayerAssetStat> {
        m.assets@.map_values(|a: u64| {
            let c = Self::asset_counters(m, a);
            let attempts = sat_add_u64(c.submissions, failed as u64);
            RelayerAssetStat {
                asset: a,
                submissions: c.submissions,
                successful_submissions: c.submissions,
                failed_submissions: failed,
                success_rate_bps: if attempts == 0 { 0 } else { success_bps(c.submissions, failed as u64) },
                avg_latency_seconds: if c.latency_count > 0 { (c.latency_sum / c.latency_count) as u64 } else { 0 },
            }
        })
    }

    /// Per-asset figures of a relayer (see `per_asset_spec`).
    pub fn collect_per_asset_stats(m: &RelayerMetrics, failed: u32) -> (r: Vec<RelayerAssetStat>)
        ensures
            r@ == Self::per_asset_spec(m, failed),
    {
        let n = m.assets.len();
        let mut out: Vec<RelayerAssetStat> = Vec::new();
        let mut i: usize = 0;
        while i < n
            invariant
                n == m.assets.len(),
                0 <= i <= n,
                out@ == Self::per_asset_spec(m, failed).subrange(0, i as int),
            decreases n - i,
        {
            let a = m.assets[i];
            let c: AssetCounters = match m.per_asset.get(&a) {
                Some(c) => *c,
                None => AssetCounters { submissions: 0, latency_sum: 0, latency_count: 0 },
            };
            let attempts = sat_add64(c.submissions, failed as u64);
            let rate = if attempts == 0 { 0 } else { success_rate_bps(c.submissions, failed as u64) };
            let avg = if c.latency_count > 0 { c.latency_sum / c.latency_count } else { 0 };
            out.push(RelayerAssetStat {
                asset: a,
                submissions: c.submissions,
                successful_submissions: c.submissions,
                failed_submissions: failed,
                success_rate_bps: rate,
                avg_latency_seconds: avg,
            });
            i = i + 1;
            assert(out@ =~= Self::per_asset_spec(m, failed).subrange(0, i as int));
        }
        assert(Self::per_asset_spec(m, failed).subrange(0, n as int) =~= Self::per_asset_spec(m, failed));
        out
    }

    /// The dashboard of `relayer`. Figures kept by the relayer registry and
    /// the bond ledger are passed in: its submission and failure counts, the
    /// ledger it was approved at (if it is approved), its fee, reward and
    /// bond balances, and the submission counts of all approved relayers.
    pub fn get_relayer_dashboard(&self, relayer: u64, total_submissions: u64, failed_submissions: u32, approved_at: Option<u32>,
        fee_earnings: i128, reward_earnings: i128, bond_deposited: i128, registry_counts: &Vec<u64>, current_ledger: u32) -> (r: RelayerDashboard)
        requires
            registry_counts.len() * 100 <= u32::MAX,
            self.has(relayer) ==> self.metrics@[relayer].latency_history.len() * 99 <= u32::MAX,
        ensures
            r.relayer == relayer,
            r.total_submissions == total_submissions,
            r.failed_submissions == failed_submissions,
            r.success_rate_bps == success_bps(total_submissions, failed_submissions as u64),
            r.avg_latency_seconds == (if total_submissions > 0 && self.has(relayer) {
                self.metrics@[relayer].latency_sum / total_submissions
            } else {
                0
            }),
            r.submission_history@ == (if self.has(relayer) { self.metrics@[relayer].submission_history@ } else { Seq::empty() }),
            r.latency_percentiles@ == percentiles_spec(if self.has(relayer) { self.metrics@[relayer].latency_history@ } else { Seq::empty() }),
            r.submissions_per_day == match approved_at {
                None => 0,
                Some(at) => {
                    let days: int = (if current_ledger >= at { current_ledger - at } else { 0 }) / (LEDGERS_PER_DAY as int);
                    ((total_submissions as int) / (if days >= 1 { days } else { 1int })) as u64
                },
            },
            r.fee_earnings == fee_earnings,
            r.reward_earnings == reward_earnings,
            r.bond_deposited == bond_deposited,
            r.percentile_rank == rank_spec(registry_counts@, total_submissions),
            self.has(relayer) ==> r.per_asset@ == Self::per_asset_spec(&self.metrics@[relayer], failed_submissions),
            !self.has(relayer) ==> r.per_asset@.len() == 0,
    {
        let rate = success_rate_bps(total_submissions, failed_submissions as u64);
        let (latency_sum, history, percentiles, per_asset) = match self.metrics.get(&relayer) {
            Some(m) => {
                let h = m.submission_history.clone();
                assert(h@ =~= m.submission_history@);
                (m.latency_sum, h, compute_latency_percentiles(&m.latency_history), Self::collect_per_asset_stats(m, failed_submissions))
            },
            None => (0u64, Vec::new(), Vec::new(), Vec::new()),
        };
        proof {
            if !self.has(relayer) {
                assert(percentiles@ =~= percentiles_spec(Seq::<u64>::empty()));
            }
        }
        let avg = if total_submissions > 0 { latency_sum / total_submissions } else { 0 };
        let per_day = match approved_at {
            Some(at) => {
                let elapsed = current_ledger.saturating_sub(at);
                let d = elapsed / LEDGERS_PER_DAY;
                let days: u64 = if d >= 1 { d as u64 } else { 1 };
                total_submissions / days
            },
            None => 0,
        };
        let rank = compute_percentile_rank(registry_counts, total_submissions);
        RelayerDashboard {
            relayer,
            total_submissions,
            failed_submissions,
            success_rate_bps: rate,
            submissions_per_day: per_day,
            avg_latency_seconds: avg,
            submission_history: history,
            latency_percentiles: percentiles,
            fee_earnings,
            reward_earnings,
            bond_deposited,
            percentile_rank: rank,
            per_asset,
        }
    }
}

} // verus!
