//! Source liveness and the oracle's health report: sources send
//! heartbeats, a source whose last heartbeat is older than the heartbeat
//! interval counts as inactive, and the report sums up sources, assets,
//! published prices and their staleness.

use vstd::prelude::*;
use std::collections::HashMap;
use crate::oracle::PriceOracleContract;
use crate::types::{ErrorCode, LedgerInfo};

verus! {

broadcast use vstd::std_specs::hash::group_hash_axioms;

/// Time of each source's latest heartbeat.
pub struct Heartbeats {
    pub last: HashMap<u64, u64>,
}

/// The oracle's state at a glance.
#[derive(Clone, Copy, Debug, PartialEq, Eq, Structural)]
pub struct HealthReport {
    pub total_sources: u32,
    pub active_sources: u32,
    pub total_assets: u32,
    pub assets_with_prices: u32,
    pub is_aggregation_paused: bool,
    pub last_aggregation_ledger: u32,
    pub stale_price_count: u32,
    pub suspended_source_count: u32,
}

/// `a - b`, or 0 when `b` is larger.
pub open spec fn sub_floor(a: u64, b: u64) -> int {
    if a >= b { a - b } else { 0 }
}

impl Heartbeats {
    /// Time of the latest heartbeat of `source` (0 before any).
    pub open spec fn last_of(&self, source: u64) -> u64 {
        if self.last@.contains_key(source) { self.last@[source] } else { 0 }
    }

    /// Whether `source` missed its heartbeat at time `now`.
    pub open spec fn inactive(&self, oracle: &PriceOracleContract, source: u64, now: u64) -> bool {
        sub_floor(now, self.last_of(source)) > oracle.config.heartbeat_interval
    }

    /// Number of inactive sources among `sources`.
    pub open spec fn inactive_count(&self, oracle: &PriceOracleContract, sources: Seq<u64>, now: u64) -> nat
        decreases sources.len(),
    {
        if sources.len() == 0 {
            0
        } else {
            self.inactive_count(oracle, sources.drop_last(), now) + if self.inactive(oracle, sources.last(), now) { 1nat } else { 0nat }
        }
    }

    /// No heartbeat yet.
    pub fn new() -> (r: Heartbeats)
        ensures
            forall|s: u64| #[trigger] r.last_of(s) == 0,
    {
        Heartbeats { last: HashMap::new() }
    }

    /// Records a heartbeat of the registered `source` at `now`.
    pub fn submit_heartbeat(&mut self, oracle: &PriceOracleContract, source: u64, now: LedgerInfo) -> (r: Result<(), ErrorCode>)
        ensures
            r == (if oracle.sources@.contains(source) { Ok(()) } else { Err::<(), ErrorCode>(ErrorCode::SourceNotFound) }),
            final(self).last@ == (if r.is_ok() { old(self).last@.insert(source, now.timestamp) } else { old(self).last@ }),
    {
        if !oracle.is_source(source) {
            return Err(ErrorCode::SourceNotFound);
        }
        self.last.insert(source, now.timestamp);
        Ok(())
    }

    /// Time of the latest heartbeat of `source`, 0 before any.
    pub fn get_source_last_heartbeat(&self, source: u64) -> (r: u64)
        ensures
            r == self.last_of(source),
    {
        match self.last.get(&source) {
            Some(t) => *t,
            None => 0,
        }
    }

    /// Whether `source` is inactive at `now`: its latest heartbeat is older
    /// than the heartbeat interval.
    pub fn is_source_inactive(&self, oracle: &PriceOracleContract, source: u64, now: LedgerInfo) -> (r: bool)
        ensures
            r == self.inactive(oracle, source, now.timestamp),
    {
        let last = self.get_source_last_heartbeat(source);
        let age: u64 = if now.timestamp >= last { now.timestamp - last } else { 0 };
        age > oracle.config.heartbeat_interval
    }

    /// Number of inactive registered sources at `now`.
    pub fn get_inactive_sources(&self, oracle: &PriceOracleContract, now: LedgerInfo) -> (r: u32)
        requires
            oracle.sources@.len() <= u32::MAX,
        ensures
            r == self.inactive_count(oracle, oracle.sources@, now.timestamp),
    {
        let n = oracle.sources.len();
        let mut count: u32 = 0;
        let mut i: usize = 0;
        while i < n
            invariant
                n == oracle.sources@.len() <= u32::MAX,
                0 <= i <= n,
                count == self.inactive_count(oracle, oracle.sources@.subrange(0, i as int), now.timestamp),
                count <= i,
            decreases n - i,
        {
            proof {
                assert(oracle.sources@.subrange(0, i + 1).drop_last() =~= oracle.sources@.subrange(0, i as int));
            }
            if self.is_source_inactive(oracle, oracle.sources[i], now) {
                count = count + 1;
            }
            i = i + 1;
        }
        proof {
            assert(oracle.sources@.subrange(0, n as int) =~= oracle.sources@);
        }
        count
    }
}

proof fn lemma_inactive_count_le(h: &Heartbeats, oracle: &PriceOracleContract, sources: Seq<u64>, now: u64)
    ensures
        h.inactive_count(oracle, sources, now) <= sources.len(),
    decreases sources.len(),
{
    if sources.len() > 0 {
        lemma_inactive_count_le(h, oracle, sources.drop_last(), now);
    }
}

/// Number of the assets among `assets` that have a published price.
pub open spec fn priced_count(oracle: &PriceOracleContract, assets: Seq<u64>) -> nat
    decreases assets.len(),
{
    if assets.len() == 0 {
        0
    } else {
        priced_count(oracle, assets.drop_last()) + if oracle.aggregate(assets.last()).is_some() { 1nat } else { 0nat }
    }
}

/// Number of the assets among `assets` whose published price is older than
/// the resolution (none when the resolution is 0).
pub open spec fn stale_count(oracle: &PriceOracleContract, assets: Seq<u64>, now: u64) -> nat
    decreases assets.len(),
{
    if assets.len() == 0 {
        0
    } else {
        let a = assets.last();
        stale_count(oracle, assets.drop_last(), now) + if oracle.config.resolution > 0 && oracle.aggregate(a).is_some()
            && sub_floor(now, oracle.aggregate(a).unwrap().timestamp) > oracle.config.resolution { 1nat } else { 0nat }
    }
}

/// Ledger of the latest history entry of `asset`, when it has a published
/// price and a history (0 otherwise).
pub open spec fn last_history_ledger(oracle: &PriceOracleContract, asset: u64) -> u32 {
    if oracle.aggregate(asset).is_some() && oracle.history(asset).len() > 0 { oracle.history(asset).last().ledger } else { 0 }
}

/// Highest `last_history_ledger` among `assets`.
pub open spec fn latest_ledger(oracle: &PriceOracleContract, assets: Seq<u64>) -> u32
    decreases assets.len(),
{
    if assets.len() == 0 {
        0
    } else {
        let rest = latest_ledger(oracle, assets.drop_last());
        let l = last_history_ledger(oracle, assets.last());
        if l > rest { l } else { rest }
    }
}

/// The health report of the oracle at `now`.
pub fn health_check(oracle: &PriceOracleContract, heartbeats: &Heartbeats, now: LedgerInfo) -> (r: HealthReport)
    requires
        oracle.sources@.len() <= u32::MAX,
        oracle.assets@.len() <= u32::MAX,
    ensures
        r.total_sources == oracle.sources@.len(),
        r.suspended_source_count == heartbeats.inactive_count(oracle, oracle.sources@, now.timestamp),
        r.active_sources == oracle.sources@.len() - heartbeats.inactive_count(oracle, oracle.sources@, now.timestamp),
        r.total_assets == oracle.assets@.len(),
        r.assets_with_prices == priced_count(oracle, oracle.assets@),
        r.is_aggregation_paused == oracle.config.paused,
        r.last_aggregation_ledger == latest_ledger(oracle, oracle.assets@),
        r.stale_price_count == stale_count(oracle, oracle.assets@, now.timestamp),
{
    let total_sources = oracle.sources.len() as u32;
    let suspended = heartbeats.get_inactive_sources(oracle, now);
    proof {
        lemma_inactive_count_le(heartbeats, oracle, oracle.sources@, now.timestamp);
    }
    let active = total_sources.saturating_sub(suspended);
    let n = oracle.assets.len();
    let mut priced: u32 = 0;
    let mut stale: u32 = 0;
    let mut latest: u32 = 0;
    let mut i: usize = 0;
    while i < n
        invariant
            n == oracle.assets@.len() <= u32::MAX,
            0 <= i <= n,
            priced == priced_count(oracle, oracle.assets@.subrange(0, i as int)),
            stale == stale_count(oracle, oracle.assets@.subrange(0, i as int), now.timestamp),
            latest == latest_ledger(oracle, oracle.assets@.subrange(0, i as int)),
            priced <= i,
            stale <= i,
        decreases n - i,
    {
        proof {
            assert(oracle.assets@.subrange(0, i + 1).drop_last() =~= oracle.assets@.subrange(0, i as int));
        }
        let asset = oracle.assets[i];
        match oracle.aggregates.get(&asset) {
            Some(agg) => {
                priced = priced + 1;
                match oracle.histories.get(&asset) {
                    Some(h) => {
                        if h.len() > 0 {
                            let l = h[h.len() - 1].ledger;
                            if l > latest {
                                latest = l;
                            }
                        }
                    },
                    None => {},
                }
                if oracle.config.resolution > 0 {
                    let age: u64 = if now.timestamp >= agg.timestamp { now.timestamp - agg.timestamp } else { 0 };
                    if age > oracle.config.resolution as u64 {
                        stale = stale + 1;
                    }
                }
            },
            None => {},
        }
        i = i + 1;
    }
    proof {
        assert(oracle.assets@.subrange(0, n as int) =~= oracle.assets@);
    }
    HealthReport {
        total_sources,
        active_sources: active,
        total_assets: n as u32,
        assets_with_prices: priced,
        is_aggregation_paused: oracle.config.paused,
        last_aggregation_ledger: latest,
        stale_price_count: stale,
        suspended_source_count: suspended,
    }
}

} // verus!
