//! Read paths: the published price with overrides, circuit-breaker fallback
//! and staleness checks; the SEP-40 interface (`lastprice`, `price`,
//! `prices`, `assets`, `base`, `decimals`, `resolution`); time-weighted
//! averages.

use vstd::prelude::*;
use crate::aggregation::{compliant_in, inc_sat};
use crate::oracle::{byte_len, description_len, pair_key_spec, PriceOracleContract, MAX_DESCRIPTION_LEN};
use crate::stats::{compute_mean, compute_median, compute_trimmed_mean, mean_spec, median_spec, trimmed_mean_spec};
use crate::submission::{flag_on, submitted_entry};
use crate::twap::{all_positive, twap_value};
use crate::types::{AggregatePrice, Asset, ErrorCode, LedgerInfo, PriceData, PriceEntry, PriceHistoryEntry, PriceOverrideEntry, TwapMethod};
use vstd::string::StringExecFns;

verus! {

broadcast use vstd::std_specs::hash::group_hash_axioms;

/// Fewest history entries a circuit-breaker fallback average spans.
pub const MIN_FALLBACK_WINDOW: u32 = 5;
/// Most ledgers `price` looks back.
pub const PRICE_LOOKBACK_LEDGERS: u32 = 1000;
/// Most ledgers `prices` looks back.
pub const PRICES_LOOKBACK_CAP: u32 = 10000;

/// Entries of `h` whose ledger lies in `[lo, hi]`, newest first.
pub open spec fn newest_in(h: Seq<PriceHistoryEntry>, lo: u32, hi: u32) -> Seq<PriceHistoryEntry>
    decreases h.len(),
{
    if h.len() == 0 {
        Seq::empty()
    } else {
        let e = h.last();
        let rest = newest_in(h.drop_last(), lo, hi);
        if lo <= e.ledger && e.ledger <= hi { seq![e] + rest } else { rest }
    }
}

/// The newest entry of `h` with ledger in `[lo, hi]` and timestamp at most `t`.
pub open spec fn newest_at_or_before(h: Seq<PriceHistoryEntry>, lo: u32, hi: u32, t: u64) -> Option<PriceHistoryEntry>
    decreases h.len(),
{
    if h.len() == 0 {
        None
    } else {
        let e = h.last();
        if lo <= e.ledger && e.ledger <= hi && e.timestamp <= t {
            Some(e)
        } else {
            newest_at_or_before(h.drop_last(), lo, hi, t)
        }
    }
}

/// A history entry as SEP-40 price data, stamped with its own ledger.
pub open spec fn entry_data(e: PriceHistoryEntry) -> PriceData {
    PriceData { price: e.price, timestamp: e.timestamp, last_updated: e.ledger }
}

/// `a - b`, or 0 when `b > a`.
pub open spec fn sub_floor(a: u32, b: u32) -> u32 {
    if a >= b { (a - b) as u32 } else { 0 }
}

/// Whether a record stamped `ts` is older than `window` seconds at `now`
/// (a zero window never expires).
pub open spec fn stale(ts: u64, window: u64, now: u64) -> bool {
    window > 0 && ts + window < now
}

/// Entries of `h` in `[lo, hi]`, newest first.
pub fn collect_newest(h: &Vec<PriceHistoryEntry>, lo: u32, hi: u32, limit: usize) -> (r: Vec<PriceHistoryEntry>)
    ensures
        r@ == newest_in(h@, lo, hi).take(
            if newest_in(h@, lo, hi).len() < limit { newest_in(h@, lo, hi).len() as int } else { limit as int }),
{
    let ghost full = newest_in(h@, lo, hi);
    let mut out: Vec<PriceHistoryEntry> = Vec::new();
    let mut i: usize = h.len();
    assert(h@.subrange(0, i as int) =~= h@);
    while i > 0 && out.len() < limit
        invariant
            i <= h.len(),
            full == newest_in(h@, lo, hi),
            out@ + newest_in(h@.subrange(0, i as int), lo, hi) == full,
            out.len() <= limit,
        decreases i,
    {
        let e = h[i - 1];
        let ghost before = out@;
        proof {
            assert(h@.subrange(0, i as int).drop_last() =~= h@.subrange(0, i - 1));
            assert(h@.subrange(0, i as int).last() == e);
        }
        if lo <= e.ledger && e.ledger <= hi {
            out.push(e);
            assert(out@ + newest_in(h@.subrange(0, i - 1), lo, hi) =~= before + newest_in(h@.subrange(0, i as int), lo, hi));
        }
        i = i - 1;
    }
    proof {
        if out.len() < limit {
            assert(newest_in(h@.subrange(0, i as int), lo, hi) =~= Seq::<PriceHistoryEntry>::empty());
            assert(out@ =~= full);
            assert(full.take(full.len() as int) =~= full);
        } else {
            assert(full.take(limit as int) =~= out@);
        }
    }
    out
}

/// The newest entry of `h` in `[lo, hi]` stamped at or before `t`.
pub fn find_newest_at_or_before(h: &Vec<PriceHistoryEntry>, lo: u32, hi: u32, t: u64) -> (r: Option<PriceHistoryEntry>)
    ensures
        r == newest_at_or_before(h@, lo, hi, t),
{
    let mut i: usize = h.len();
    assert(h@.subrange(0, i as int) =~= h@);
    while i > 0
        invariant
            i <= h.len(),
            newest_at_or_before(h@.subrange(0, i as int), lo, hi, t) == newest_at_or_before(h@, lo, hi, t),
        decreases i,
    {
        let e = h[i - 1];
        proof {
            assert(h@.subrange(0, i as int).drop_last() =~= h@.subrange(0, i - 1));
            assert(h@.subrange(0, i as int).last() == e);
        }
        if lo <= e.ledger && e.ledger <= hi && e.timestamp <= t {
            return Some(e);
        }
        i = i - 1;
    }
    None
}

impl PriceOracleContract {
    /// Staleness window of `asset` in seconds: its own, unless unset or
    /// zero, else the contract-wide one.
    pub open spec fn resolution_of(&self, asset: u64) -> u32 {
        if self.asset_resolution@.contains_key(asset) && self.asset_resolution@[asset] != 0 {
            self.asset_resolution@[asset]
        } else {
            self.config.resolution
        }
    }

    /// The override of `asset`, if any.
    pub open spec fn override_of(&self, asset: u64) -> Option<PriceOverrideEntry> {
        if self.overrides@.contains_key(asset) { Some(self.overrides@[asset]) } else { None }
    }

    /// Whether `asset` has an override still valid at `ledger`.
    pub open spec fn override_active(&self, asset: u64, ledger: u32) -> bool {
        self.override_of(asset) matches Some(o) && ledger <= o.expiry_ledger
    }

    /// Arithmetic average over the recent history that stands in for the
    /// price of an asset whose circuit breaker tripped.
    pub open spec fn twap_fallback_spec(&self, asset: u64, now: LedgerInfo) -> Option<AggregatePrice> {
        let span = if self.config.max_history_length > MIN_FALLBACK_WINDOW { self.config.max_history_length } else { MIN_FALLBACK_WINDOW };
        match self.aggregate(asset) {
            None => None,
            Some(a) => match twap_value(self.history(asset), sub_floor(now.sequence, span), now.sequence, a.price, false) {
                None => None,
                Some(p) => Some(AggregatePrice { price: p, timestamp: now.timestamp, num_sources: 0, decimals: self.config.decimals, is_override: false, version: 0 }),
            },
        }
    }

    /// The price `get_price` reports for a registered `asset`: an active
    /// override first; for a tripped asset the fallback average, else the
    /// aggregate; otherwise the aggregate unless older than `max_age` (when
    /// non-zero) or the asset's resolution.
    pub open spec fn price_spec(&self, asset: u64, max_age: u64, now: LedgerInfo) -> Option<AggregatePrice> {
        if self.override_active(asset, now.sequence) {
            Some(AggregatePrice {
                price: self.override_of(asset).unwrap().price,
                timestamp: now.timestamp,
                num_sources: 0,
                decimals: self.config.decimals,
                is_override: true,
                version: 0,
            })
        } else if flag_on(self.tripped@, asset) {
            match self.twap_fallback_spec(asset, now) {
                Some(p) => Some(p),
                None => self.aggregate(asset),
            }
        } else {
            match self.aggregate(asset) {
                None => None,
                Some(a) => if stale(a.timestamp, max_age, now.timestamp) || stale(a.timestamp, self.resolution_of(asset) as u64, now.timestamp) {
                    None
                } else {
                    Some(a)
                },
            }
        }
    }

    /// Staleness window of `asset` in seconds.
    pub fn get_asset_resolution(&self, asset: u64) -> (r: u32)
        ensures
            r == self.resolution_of(asset),
    {
        match self.asset_resolution.get(&asset) {
            Some(v) => if *v != 0 { *v } else { self.config.resolution },
            None => self.config.resolution,
        }
    }

    /// The fallback average of a tripped asset.
    fn compute_twap_fallback(&self, asset: u64, now: LedgerInfo) -> (r: Option<AggregatePrice>)
        requires
            self.wf(),
        ensures
            r == self.twap_fallback_spec(asset, now),
    {
        let span = if self.config.max_history_length > MIN_FALLBACK_WINDOW { self.config.max_history_length } else { MIN_FALLBACK_WINDOW };
        let start = now.sequence.saturating_sub(span);
        match self.compute_twap_window(asset, start, TwapMethod::Arithmetic, now) {
            Some(d) => Some(AggregatePrice { price: d.price, timestamp: d.timestamp, num_sources: 0, decimals: self.config.decimals, is_override: false, version: 0 }),
            None => None,
        }
    }

    /// The current price of `asset` (see `price_spec`). An override that has
    /// expired is removed on the way.
    pub fn get_price(&mut self, asset: u64, max_age: u64, now: LedgerInfo) -> (r: Result<Option<AggregatePrice>, ErrorCode>)
        requires
            old(self).wf(),
        ensures
            final(self).wf(),
            final(self).config == old(self).config,
            !old(self).is_asset_spec(asset) ==> r == Err::<Option<AggregatePrice>, ErrorCode>(ErrorCode::AssetNotRegistered)
                && final(self).same_data(old(self)),
            old(self).is_asset_spec(asset) ==> r == Ok::<Option<AggregatePrice>, ErrorCode>(old(self).price_spec(asset, max_age, now)),
            old(self).is_asset_spec(asset) && old(self).override_of(asset) is Some && !old(self).override_active(asset, now.sequence)
                ==> final(self).overrides@ == old(self).overrides@.remove(asset),
            !(old(self).is_asset_spec(asset) && old(self).override_of(asset) is Some && !old(self).override_active(asset, now.sequence))
                ==> final(self).overrides@ == old(self).overrides@,
            final(self).description@ == old(self).description@,
            final(self).sources@ == old(self).sources@,
            final(self).assets@ == old(self).assets@,
            final(self).submissions@ == old(self).submissions@,
            final(self).last_submission@ == old(self).last_submission@,
            final(self).non_compliant@ == old(self).non_compliant@,
            final(self).aggregates@ == old(self).aggregates@,
            final(self).histories@ == old(self).histories@,
            final(self).asset_min_interval@ == old(self).asset_min_interval@,
            final(self).asset_resolution@ == old(self).asset_resolution@,
            final(self).price_bounds@ == old(self).price_bounds@,
            final(self).tripped@ == old(self).tripped@,
            final(self).paused_assets@ == old(self).paused_assets@,
            final(self).last_trigger@ == old(self).last_trigger@,
            final(self).nonces@ == old(self).nonces@,
            final(self).source_submission_counts@ == old(self).source_submission_counts@,
            final(self).total_submissions == old(self).total_submissions,
            final(self).compaction_meta@ == old(self).compaction_meta@,
            final(self).commits@ == old(self).commits@,
    {
        if !self.is_asset_registered(asset) {
            return Err(ErrorCode::AssetNotRegistered);
        }
        let ovr: Option<(i128, u32)> = match self.overrides.get(&asset) {
            Some(o) => Some((o.price, o.expiry_ledger)),
            None => None,
        };
        match ovr {
            Some((price, expiry)) => {
                if now.sequence <= expiry {
                    return Ok(Some(AggregatePrice {
                        price,
                        timestamp: now.timestamp,
                        num_sources: 0,
                        decimals: self.config.decimals,
                        is_override: true,
                        version: 0,
                    }));
                }
                self.overrides.remove(&asset);
            },
            None => {},
        }
        let ghost mid = *self;
        assert(mid.price_spec(asset, max_age, now) == old(self).price_spec(asset, max_age, now) || old(self).override_active(asset, now.sequence));
        if self.is_circuit_breaker_tripped(asset) {
            return match self.compute_twap_fallback(asset, now) {
                Some(p) => Ok(Some(p)),
                None => match self.aggregates.get(&asset) {
                    Some(a) => Ok(Some(*a)),
                    None => Ok(None),
                },
            };
        }
        let a = match self.aggregates.get(&asset) {
            Some(a) => *a,
            None => {
                return Ok(None);
            },
        };
        if max_age > 0 && a.timestamp.saturating_add(max_age) < now.timestamp {
            return Ok(None);
        }
        let res = self.get_asset_resolution(asset);
        if res > 0 && a.timestamp.saturating_add(res as u64) < now.timestamp {
            return Ok(None);
        }
        Ok(Some(a))
    }

    /// SEP-40 `lastprice`: the aggregate of a registered Stellar asset, stamped
    /// with the current ledger, unless older than the asset's resolution.
    pub fn lastprice(&self, asset: &Asset, now: LedgerInfo) -> (r: Option<PriceData>)
        ensures
            r == match asset {
                Asset::Other(_) => None,
                Asset::Stellar(a) => if !self.is_asset_spec(*a) {
                    None
                } else {
                    match self.aggregate(*a) {
                        None => None,
                        Some(agg) => if stale(agg.timestamp, self.resolution_of(*a) as u64, now.timestamp) {
                            None
                        } else {
                            Some(PriceData { price: agg.price, timestamp: agg.timestamp, last_updated: now.sequence })
                        },
                    }
                },
            },
    {
        let a = match asset {
            Asset::Stellar(a) => *a,
            Asset::Other(_) => {
                return None;
            },
        };
        if !self.is_asset_registered(a) {
            return None;
        }
        let agg = match self.aggregates.get(&a) {
            Some(x) => *x,
            None => {
                return None;
            },
        };
        let res = self.get_asset_resolution(a);
        if res > 0 && agg.timestamp.saturating_add(res as u64) < now.timestamp {
            return None;
        }
        Some(PriceData { price: agg.price, timestamp: agg.timestamp, last_updated: now.sequence })
    }

    /// What `price` reports for a Stellar asset at `timestamp`.
    pub open spec fn price_at_spec(&self, a: u64, timestamp: u64, now: LedgerInfo) -> Option<PriceData> {
        if !self.is_asset_spec(a) {
            None
        } else if self.aggregate(a) is Some && self.aggregate(a).unwrap().timestamp == timestamp {
            Some(PriceData { price: self.aggregate(a).unwrap().price, timestamp: timestamp, last_updated: now.sequence })
        } else {
            match newest_at_or_before(self.history(a), sub_floor(now.sequence, PRICE_LOOKBACK_LEDGERS), now.sequence, timestamp) {
                Some(e) => Some(entry_data(e)),
                None => None,
            }
        }
    }

    /// SEP-40 `price`: the price of a registered Stellar asset at
    /// `timestamp`: the aggregate when stamped exactly then, else the newest
    /// history entry of the last 1000 ledgers stamped at or before it.
    pub fn price(&self, asset: &Asset, timestamp: u64, now: LedgerInfo) -> (r: Option<PriceData>)
        ensures
            r == match asset {
                Asset::Other(_) => None,
                Asset::Stellar(a) => self.price_at_spec(*a, timestamp, now),
            },
    {
        let a = match asset {
            Asset::Stellar(a) => *a,
            Asset::Other(_) => {
                return None;
            },
        };
        if !self.is_asset_registered(a) {
            return None;
        }
        match self.aggregates.get(&a) {
            Some(agg) => {
                if agg.timestamp == timestamp {
                    return Some(PriceData { price: agg.price, timestamp: agg.timestamp, last_updated: now.sequence });
                }
            },
            None => {},
        }
        let start = now.sequence.saturating_sub(PRICE_LOOKBACK_LEDGERS);
        let empty: Vec<PriceHistoryEntry> = Vec::new();
        let h: &Vec<PriceHistoryEntry> = match self.histories.get(&a) {
            Some(h) => h,
            None => &empty,
        };
        assert(h@ == self.history(a));
        match find_newest_at_or_before(h, start, now.sequence, timestamp) {
            Some(e) => Some(PriceData { price: e.price, timestamp: e.timestamp, last_updated: e.ledger }),
            None => None,
        }
    }
}

/// Price data of history entries.
pub open spec fn entries_data(s: Seq<PriceHistoryEntry>) -> Seq<PriceData> {
    s.map_values(|e: PriceHistoryEntry| entry_data(e))
}

impl PriceOracleContract {
    /// Ledgers `prices` looks back for `records` records.
    pub open spec fn prices_lookback(records: u32) -> u32 {
        if records * 10 < PRICES_LOOKBACK_CAP { (records * 10) as u32 } else { PRICES_LOOKBACK_CAP }
    }

    /// What `prices` returns for a registered `asset` and
    /// `0 < records <= max_history_length`.
    pub open spec fn prices_spec(&self, asset: u64, records: u32, now: LedgerInfo) -> Seq<PriceData> {
        let found = newest_in(self.history(asset), sub_floor(now.sequence, Self::prices_lookback(records)), now.sequence);
        let n = if found.len() < records { found.len() as int } else { records as int };
        if n > 0 {
            entries_data(found.take(n))
        } else {
            match self.aggregate(asset) {
                Some(agg) => seq![PriceData { price: agg.price, timestamp: agg.timestamp, last_updated: now.sequence }],
                None => Seq::empty(),
            }
        }
    }

    /// SEP-40 `prices`: up to `records` recent history records of a
    /// registered Stellar asset, newest first, from the last `10 * records`
    /// ledgers (at most 10000); the aggregate alone when none is found.
    /// More records than the history keeps are refused.
    pub fn prices(&self, asset: &Asset, records: u32, now: LedgerInfo) -> (r: Result<Option<Vec<PriceData>>, ErrorCode>)
        ensures
            asset is Other ==> r matches Ok(None),
            asset matches Asset::Stellar(a) ==> (!self.is_asset_spec(*a) ==> r matches Ok(None)),
            asset matches Asset::Stellar(a) ==> (self.is_asset_spec(*a) && records == 0 ==> (r matches Ok(Some(v)) && v@.len() == 0)),
            asset matches Asset::Stellar(a) ==> (self.is_asset_spec(*a) && records > self.config.max_history_length && records > 0
                ==> r == Err::<Option<Vec<PriceData>>, ErrorCode>(ErrorCode::RecordsLimitExceeded)),
            asset matches Asset::Stellar(a) ==> (self.is_asset_spec(*a) && 0 < records <= self.config.max_history_length
                ==> (r matches Ok(Some(v)) && v@ == self.prices_spec(*a, records, now))),
    {
        let a = match asset {
            Asset::Stellar(a) => *a,
            Asset::Other(_) => {
                return Ok(None);
            },
        };
        if !self.is_asset_registered(a) {
            return Ok(None);
        }
        if records == 0 {
            return Ok(Some(Vec::new()));
        }
        if records > self.config.max_history_length {
            return Err(ErrorCode::RecordsLimitExceeded);
        }
        let lookback: u32 = if (records as u64) * 10 < PRICES_LOOKBACK_CAP as u64 { records * 10 } else { PRICES_LOOKBACK_CAP };
        let start = now.sequence.saturating_sub(lookback);
        let empty: Vec<PriceHistoryEntry> = Vec::new();
        let h: &Vec<PriceHistoryEntry> = match self.histories.get(&a) {
            Some(h) => h,
            None => &empty,
        };
        assert(h@ == self.history(a));
        let found = collect_newest(h, start, now.sequence, records as usize);
        let mut out: Vec<PriceData> = Vec::new();
        let mut i: usize = 0;
        while i < found.len()
            invariant
                0 <= i <= found.len(),
                out@ == entries_data(found@.subrange(0, i as int)),
            decreases found.len() - i,
        {
            let e = found[i];
            out.push(PriceData { price: e.price, timestamp: e.timestamp, last_updated: e.ledger });
            i = i + 1;
            assert(out@ =~= entries_data(found@.subrange(0, i as int)));
        }
        assert(found@.subrange(0, found.len() as int) =~= found@);
        if out.len() == 0 {
            match self.aggregates.get(&a) {
                Some(agg) => {
                    out.push(PriceData { price: agg.price, timestamp: agg.timestamp, last_updated: now.sequence });
                },
                None => {},
            }
        }
        Ok(Some(out))
    }

    /// Time-weighted average of a registered Stellar asset over the last
    /// `window_ledgers` ledgers (the current one included). The window must
    /// be positive and at most the history length.
    pub fn get_twap(&self, asset: &Asset, window_ledgers: u32, method: TwapMethod, now: LedgerInfo) -> (r: Result<Option<PriceData>, ErrorCode>)
        requires
            self.wf(),
            method == TwapMethod::Geometric && (asset matches Asset::Stellar(a) && self.aggregate(*a) is Some)
                ==> all_positive(self.history(asset->Stellar_0), self.aggregate(asset->Stellar_0).unwrap().price),
        ensures
            r == match asset {
                Asset::Other(_) => Ok::<Option<PriceData>, ErrorCode>(None),
                Asset::Stellar(a) => if !self.is_asset_spec(*a) {
                    Ok(None)
                } else if window_ledgers == 0 || window_ledgers > self.config.max_history_length {
                    Err(ErrorCode::InvalidConfiguration)
                } else {
                    Ok(match self.aggregate(*a) {
                        None => None,
                        Some(agg) => match twap_value(self.history(*a), sub_floor(now.sequence, (window_ledgers - 1) as u32), now.sequence,
                            agg.price, method == TwapMethod::Geometric) {
                            None => None,
                            Some(p) => Some(PriceData { price: p, timestamp: now.timestamp, last_updated: now.sequence }),
                        },
                    })
                },
            },
    {
        let a = match asset {
            Asset::Stellar(a) => *a,
            Asset::Other(_) => {
                return Ok(None);
            },
        };
        if !self.is_asset_registered(a) {
            return Ok(None);
        }
        if window_ledgers == 0 || window_ledgers > self.config.max_history_length {
            return Err(ErrorCode::InvalidConfiguration);
        }
        let start = now.sequence.saturating_sub(window_ledgers - 1);
        Ok(self.compute_twap_window(a, start, method, now))
    }
}

/// Prices of the hypothetical submissions that are positive, in order.
pub open spec fn positive_prices(h: Seq<(u64, i128)>) -> Seq<i128>
    decreases h.len(),
{
    if h.len() == 0 {
        Seq::empty()
    } else {
        let rest = positive_prices(h.drop_last());
        if h.last().1 > 0 { rest.push(h.last().1) } else { rest }
    }
}

/// A copy of an override.
pub fn copy_override(o: &PriceOverrideEntry) -> (r: PriceOverrideEntry)
    ensures
        r == *o,
{
    PriceOverrideEntry { price: o.price, reason: o.reason.clone(), expiry_ledger: o.expiry_ledger, set_ledger: o.set_ledger }
}

impl PriceOracleContract {
    /// Sets a manual price for `asset` valid up to and including ledger
    /// `expiry_ledger`, which must lie in the future; the reason may hold
    /// at most 256 bytes.
    pub fn override_price(&mut self, caller: u64, asset: u64, price: i128, reason: String, expiry_ledger: u32, now: LedgerInfo) -> (r: Result<(), ErrorCode>)
        requires
            old(self).wf(),
        ensures
            final(self).wf(),
            final(self).config == old(self).config,
            r == (if caller != old(self).config.admin {
                Err(ErrorCode::NotAuthorized)
            } else if !old(self).is_asset_spec(asset) {
                Err(ErrorCode::AssetNotRegistered)
            } else if byte_len(reason@) > MAX_DESCRIPTION_LEN {
                Err(ErrorCode::ReasonTooLong)
            } else if price <= 0 {
                Err(ErrorCode::InvalidPrice)
            } else if expiry_ledger <= now.sequence {
                Err(ErrorCode::InvalidConfiguration)
            } else {
                Ok::<(), ErrorCode>(())
            }),
            r is Err ==> final(self).same_data(old(self)),
            r is Ok ==> final(self).overrides@ == old(self).overrides@.insert(asset,
                PriceOverrideEntry { price, reason, expiry_ledger, set_ledger: now.sequence }),
            r is Ok ==> final(self).aggregates@ == old(self).aggregates@ && final(self).histories@ == old(self).histories@
                && final(self).sources@ == old(self).sources@ && final(self).assets@ == old(self).assets@
                && final(self).submissions@ == old(self).submissions@,
    {
        if caller != self.config.admin {
            return Err(ErrorCode::NotAuthorized);
        }
        if !self.is_asset_registered(asset) {
            return Err(ErrorCode::AssetNotRegistered);
        }
        if description_len(&reason) > MAX_DESCRIPTION_LEN {
            return Err(ErrorCode::ReasonTooLong);
        }
        if price <= 0 {
            return Err(ErrorCode::InvalidPrice);
        }
        if expiry_ledger <= now.sequence {
            return Err(ErrorCode::InvalidConfiguration);
        }
        self.overrides.insert(asset, PriceOverrideEntry { price, reason, expiry_ledger, set_ledger: now.sequence });
        Ok(())
    }

    /// Removes the override of `asset`; `NoData` when there is none.
    pub fn remove_price_override(&mut self, caller: u64, asset: u64) -> (r: Result<(), ErrorCode>)
        requires
            old(self).wf(),
        ensures
            final(self).wf(),
            final(self).config == old(self).config,
            r == (if caller != old(self).config.admin {
                Err(ErrorCode::NotAuthorized)
            } else if !old(self).is_asset_spec(asset) {
                Err(ErrorCode::AssetNotRegistered)
            } else if old(self).override_of(asset) is None {
                Err(ErrorCode::NoData)
            } else {
                Ok::<(), ErrorCode>(())
            }),
            r is Err ==> final(self).same_data(old(self)),
            r is Ok ==> final(self).overrides@ == old(self).overrides@.remove(asset),
            r is Ok ==> final(self).aggregates@ == old(self).aggregates@ && final(self).histories@ == old(self).histories@
                && final(self).sources@ == old(self).sources@ && final(self).assets@ == old(self).assets@
                && final(self).submissions@ == old(self).submissions@,
    {
        if caller != self.config.admin {
            return Err(ErrorCode::NotAuthorized);
        }
        if !self.is_asset_registered(asset) {
            return Err(ErrorCode::AssetNotRegistered);
        }
        if self.overrides.get(&asset).is_none() {
            return Err(ErrorCode::NoData);
        }
        self.overrides.remove(&asset);
        Ok(())
    }

    /// The override of a registered `asset`, whether or not it has expired.
    pub fn get_price_override(&self, asset: u64) -> (r: Result<Option<PriceOverrideEntry>, ErrorCode>)
        ensures
            !self.is_asset_spec(asset) ==> r == Err::<Option<PriceOverrideEntry>, ErrorCode>(ErrorCode::AssetNotRegistered),
            self.is_asset_spec(asset) ==> r == Ok::<Option<PriceOverrideEntry>, ErrorCode>(self.override_of(asset)),
    {
        if !self.is_asset_registered(asset) {
            return Err(ErrorCode::AssetNotRegistered);
        }
        match self.overrides.get(&asset) {
            Some(o) => Ok(Some(copy_override(o))),
            None => Ok(None),
        }
    }

    /// The stored submission of a registered `source` for a registered `asset`;
    /// `NoData` when it has not submitted one.
    pub fn get_source_price(&self, asset: u64, source: u64) -> (r: Result<PriceEntry, ErrorCode>)
        ensures
            !self.is_asset_spec(asset) ==> r == Err::<PriceEntry, ErrorCode>(ErrorCode::AssetNotRegistered),
            self.is_asset_spec(asset) && !self.is_source_spec(source) ==> r == Err::<PriceEntry, ErrorCode>(ErrorCode::SourceNotFound),
            self.is_asset_spec(asset) && self.is_source_spec(source) ==> r == match self.submission(asset, source) {
                Some(e) => Ok::<PriceEntry, ErrorCode>(e),
                None => Err(ErrorCode::NoData),
            },
    {
        if !self.is_asset_registered(asset) {
            return Err(ErrorCode::AssetNotRegistered);
        }
        if !self.is_source(source) {
            return Err(ErrorCode::SourceNotFound);
        }
        match self.get_submission(asset, source) {
            Some(e) => Ok(e),
            None => Err(ErrorCode::NoData),
        }
    }

    /// The stored submissions for a registered `asset`, in source order.
    pub fn get_all_prices(&self, asset: u64) -> (r: Result<Vec<PriceEntry>, ErrorCode>)
        ensures
            !self.is_asset_spec(asset) ==> r is Err && r == Err::<Vec<PriceEntry>, ErrorCode>(ErrorCode::AssetNotRegistered),
            self.is_asset_spec(asset) ==> (r matches Ok(v) && v@ == self.contributions(asset, self.sources@, 0, 0)),
    {
        if !self.is_asset_registered(asset) {
            return Err(ErrorCode::AssetNotRegistered);
        }
        let (entries, _overdue) = self.collect_contributions(asset, &self.sources, 0, 0);
        Ok(entries)
    }

    /// The published aggregate of a registered `asset` with its version (0
    /// after the first aggregation, one more on each later price change);
    /// `NoData` before the first aggregation.
    pub fn get_aggregate_with_version(&self, asset: u64) -> (r: Result<(AggregatePrice, u32), ErrorCode>)
        ensures
            r == (if !self.is_asset_spec(asset) {
                Err(ErrorCode::AssetNotRegistered)
            } else {
                match self.aggregate(asset) {
                    None => Err(ErrorCode::NoData),
                    Some(a) => Ok((a, a.version)),
                }
            }),
    {
        if !self.is_asset_registered(asset) {
            return Err(ErrorCode::AssetNotRegistered);
        }
        match self.aggregates.get(&asset) {
            Some(a) => Ok((*a, a.version)),
            None => Err(ErrorCode::NoData),
        }
    }

    /// Submissions a manual aggregation uses: those of every registered
    /// source that meets the contract-wide submission interval.
    pub open spec fn trigger_entries(&self, asset: u64, ledger: u32) -> Seq<PriceEntry> {
        self.contributions(asset, self.sources@, self.config.min_submission_interval, ledger)
    }

    /// Outcome of a manual aggregation of `asset` at `ledger`.
    pub open spec fn trigger_check(&self, asset: u64, ledger: u32) -> Result<(), ErrorCode> {
        if !self.is_asset_spec(asset) {
            Err(ErrorCode::AssetNotRegistered)
        } else if self.last_trigger@.contains_key(asset) && sub_floor(ledger, self.last_trigger@[asset]) < self.config.aggregation_cooldown {
            Err(ErrorCode::InvalidConfiguration)
        } else if !self.enough(self.trigger_entries(asset, ledger)) {
            Err(ErrorCode::InsufficientSources)
        } else {
            Ok(())
        }
    }

    /// Re-aggregates `asset` on request, at most once per cooldown: from the
    /// submissions of every registered source meeting the contract-wide
    /// interval, without sampling and without touching the history.
    pub fn trigger_aggregation(&mut self, asset: u64, now: LedgerInfo) -> (r: Result<(), ErrorCode>)
        requires
            old(self).wf(),
            old(self).sources@.len() <= u32::MAX,
        ensures
            final(self).wf(),
            final(self).config == old(self).config,
            r == old(self).trigger_check(asset, now.sequence),
            r is Err ==> final(self).same_data(old(self)),
            r is Ok ==> {
                &&& final(self).aggregates@ == old(self).aggregates@.insert(asset,
                    old(self).aggregate_of(asset, old(self).trigger_entries(asset, now.sequence)))
                &&& final(self).last_trigger@ == old(self).last_trigger@.insert(asset, now.sequence)
                &&& final(self).histories@ == old(self).histories@
                &&& final(self).submissions@ == old(self).submissions@
                &&& final(self).sources@ == old(self).sources@
                &&& final(self).assets@ == old(self).assets@
                &&& final(self).non_compliant@ == old(self).non_compliant@
                &&& final(self).description@ == old(self).description@
                &&& final(self).last_submission@ == old(self).last_submission@
                &&& final(self).overrides@ == old(self).overrides@
                &&& final(self).asset_min_interval@ == old(self).asset_min_interval@
                &&& final(self).asset_resolution@ == old(self).asset_resolution@
                &&& final(self).price_bounds@ == old(self).price_bounds@
                &&& final(self).tripped@ == old(self).tripped@
                &&& final(self).paused_assets@ == old(self).paused_assets@
                &&& final(self).nonces@ == old(self).nonces@
                &&& final(self).source_submission_counts@ == old(self).source_submission_counts@
                &&& final(self).total_submissions == old(self).total_submissions
                &&& final(self).compaction_meta@ == old(self).compaction_meta@
                &&& final(self).commits@ == old(self).commits@
            },
    {
        if !self.is_asset_registered(asset) {
            return Err(ErrorCode::AssetNotRegistered);
        }
        match self.last_trigger.get(&asset) {
            Some(last) => {
                if now.sequence.saturating_sub(*last) < self.config.aggregation_cooldown {
                    return Err(ErrorCode::InvalidConfiguration);
                }
            },
            None => {},
        }
        let (entries, _overdue) = self.collect_contributions(asset, &self.sources, self.config.min_submission_interval, now.sequence);
        if !(entries.len() as u128 >= self.config.min_sources_required as u128 && entries.len() > 0) {
            return Err(ErrorCode::InsufficientSources);
        }
        let (prices, volumes, latest) = crate::aggregation::split_entries(&entries);
        let price = crate::stats::aggregate_prices(&prices, &volumes, self.config.aggregation_method, self.config.bft_fault_tolerance, self.config.bft_method);
        let version = match self.aggregates.get(&asset) {
            Some(prev) => {
                if prev.price != price {
                    if prev.version == u32::MAX { prev.version } else { prev.version + 1 }
                } else {
                    prev.version
                }
            },
            None => 0,
        };
        let agg = AggregatePrice {
            price,
            timestamp: latest,
            num_sources: entries.len() as u32,
            decimals: self.config.decimals,
            is_override: false,
            version,
        };
        self.aggregates.insert(asset, agg);
        self.last_trigger.insert(asset, now.sequence);
        Ok(())
    }

    /// Registered sources that meet the contract-wide submission interval
    /// for a registered `asset` at `now`.
    pub fn get_compliant_sources(&self, asset: u64, now: LedgerInfo) -> (r: Result<Vec<u64>, ErrorCode>)
        ensures
            !self.is_asset_spec(asset) ==> r == Err::<Vec<u64>, ErrorCode>(ErrorCode::AssetNotRegistered),
            self.is_asset_spec(asset) ==> (r matches Ok(v) && v@ == self.sources@.filter(
                |s: u64| compliant_in(self.last_submission@, asset, s, self.config.min_submission_interval, now.sequence))),
    {
        if !self.is_asset_registered(asset) {
            return Err(ErrorCode::AssetNotRegistered);
        }
        let mi = self.config.min_submission_interval;
        let ghost pred = |s: u64| compliant_in(self.last_submission@, asset, s, mi, now.sequence);
        let n = self.sources.len();
        let mut out: Vec<u64> = Vec::new();
        let mut i: usize = 0;
        while i < n
            invariant
                n == self.sources.len(),
                0 <= i <= n,
                mi == self.config.min_submission_interval,
                pred == (|s: u64| compliant_in(self.last_submission@, asset, s, mi, now.sequence)),
                out@ == self.sources@.subrange(0, i as int).filter(pred),
            decreases n - i,
        {
            let src = self.sources[i];
            proof {
                reveal_with_fuel(Seq::<_>::filter, 1);
                assert(self.sources@.subrange(0, i + 1).drop_last() =~= self.sources@.subrange(0, i as int));
            }
            let ok = if mi > 0 {
                match self.last_submission.get(&crate::oracle::pair_key(asset, src)) {
                    Some(last) => now.sequence.saturating_sub(*last) <= mi,
                    None => false,
                }
            } else {
                true
            };
            if ok {
                out.push(src);
            }
            i = i + 1;
        }
        proof {
            assert(self.sources@.subrange(0, n as int) =~= self.sources@);
        }
        Ok(out)
    }

    /// The aggregate a set of hypothetical submissions would give for a
    /// registered `asset` under the configured method (median, mean, or the
    /// 10% trimmed mean; the median for any other method), counting only
    /// positive prices; `None` when fewer than the required number remain.
    pub fn simulate_aggregation(&self, asset: u64, hypothetical: &Vec<(u64, i128)>) -> (r: Result<Option<i128>, ErrorCode>)
        ensures
            r == (if !self.is_asset_spec(asset) {
                Err(ErrorCode::AssetNotRegistered)
            } else {
                let p = positive_prices(hypothetical@);
                if p.len() < self.config.min_sources_required {
                    Ok(None)
                } else if self.config.aggregation_method == 1 {
                    Ok(Some(mean_spec(p) as i128))
                } else if self.config.aggregation_method == 2 {
                    Ok(Some(trimmed_mean_spec(p, 10) as i128))
                } else {
                    Ok::<Option<i128>, ErrorCode>(Some(median_spec(p) as i128))
                }
            }),
    {
        if !self.is_asset_registered(asset) {
            return Err(ErrorCode::AssetNotRegistered);
        }
        let n = hypothetical.len();
        let mut prices: Vec<i128> = Vec::new();
        let mut i: usize = 0;
        while i < n
            invariant
                n == hypothetical.len(),
                0 <= i <= n,
                prices@ == positive_prices(hypothetical@.subrange(0, i as int)),
            decreases n - i,
        {
            proof {
                assert(hypothetical@.subrange(0, i + 1).drop_last() =~= hypothetical@.subrange(0, i as int));
            }
            let (_, p) = hypothetical[i];
            if p > 0 {
                prices.push(p);
            }
            i = i + 1;
        }
        proof {
            assert(hypothetical@.subrange(0, n as int) =~= hypothetical@);
        }
        if (prices.len() as u128) < self.config.min_sources_required as u128 {
            return Ok(None);
        }
        let v = if self.config.aggregation_method == 1 {
            compute_mean(&prices)
        } else if self.config.aggregation_method == 2 {
            compute_trimmed_mean(&prices, 10)
        } else {
            compute_median(&prices)
        };
        Ok(Some(v))
    }

    /// Decimal places of published prices (SEP-40 `decimals`).
    pub fn decimals(&self) -> (r: u32)
        ensures
            r == self.config.decimals,
    {
        self.config.decimals
    }

    /// Contract-wide staleness window in seconds (SEP-40 `resolution`).
    pub fn resolution(&self) -> (r: u32)
        ensures
            r == self.config.resolution,
    {
        self.config.resolution
    }

    /// The asset prices are quoted in (SEP-40 `base`): `Other("USD")`.
    pub fn base(&self) -> (r: Asset)
        ensures
            r matches Asset::Other(s) && s@ == "USD"@,
    {
        Asset::Other(String::from_str("USD"))
    }

    /// The registered assets as SEP-40 assets (SEP-40 `assets`).
    pub fn assets(&self) -> (r: Vec<Asset>)
        ensures
            r@ == self.assets@.map_values(|a: u64| Asset::Stellar(a)),
    {
        let n = self.assets.len();
        let mut out: Vec<Asset> = Vec::new();
        let mut i: usize = 0;
        while i < n
            invariant
                n == self.assets.len(),
                0 <= i <= n,
                out@ == self.assets@.subrange(0, i as int).map_values(|a: u64| Asset::Stellar(a)),
            decreases n - i,
        {
            out.push(Asset::Stellar(self.assets[i]));
            i = i + 1;
            assert(out@ =~= self.assets@.subrange(0, i as int).map_values(|a: u64| Asset::Stellar(a)));
        }
        assert(self.assets@.subrange(0, n as int) =~= self.assets@);
        out
    }

    /// Outcome of the checks on an internal submission.
    pub open spec fn internal_check(&self, source: u64, asset: u64, price: i128) -> Result<(), ErrorCode> {
        if !self.is_source_spec(source) {
            Err(ErrorCode::SourceNotFound)
        } else if !self.is_asset_spec(asset) {
            Err(ErrorCode::AssetNotRegistered)
        } else if self.config.bft_fault_tolerance > 0 {
            Err(ErrorCode::CommitRevealRequired)
        } else if price <= 0 {
            Err(ErrorCode::InvalidPrice)
        } else {
            Ok(())
        }
    }

    /// Submission path for callers that have already authorized the source
    /// and checked the pause state: no nonce, bounds or timestamp checks; a
    /// tripped asset silently ignores the price.
    pub fn submit_price_internal(&mut self, source: u64, asset: u64, price: i128, timestamp: u64, now: LedgerInfo) -> (r: Result<Option<AggregatePrice>, ErrorCode>)
        requires
            old(self).wf(),
            old(self).sources@.len() <= u32::MAX,
        ensures
            final(self).wf(),
            r is Err <==> old(self).internal_check(source, asset, price) is Err,
            r matches Err(e) ==> old(self).internal_check(source, asset, price) == Err::<(), ErrorCode>(e)
                && final(self).config == old(self).config && final(self).same_data(old(self)),
            r is Ok && flag_on(old(self).tripped@, asset) ==> r == Ok::<Option<AggregatePrice>, ErrorCode>(None)
                && final(self).config == old(self).config && final(self).same_data(old(self)),
            r matches Ok(agg) ==> !flag_on(old(self).tripped@, asset) ==> {
                let entry = submitted_entry(price, timestamp, source, old(self).config.decimals, now.sequence, now.timestamp, None);
                let subs = old(self).submissions@.insert(pair_key_spec(asset, source), entry);
                &&& final(self).submissions@ == subs
                &&& final(self).nonces@ == old(self).nonces@
                &&& final(self).total_submissions == inc_sat(old(self).total_submissions)
                &&& final(self).source_submission_counts@ == old(self).source_submission_counts@.insert(source, inc_sat(old(self).submission_count(source)))
                &&& old(self).guarded_outcome(subs, final(self), asset, now.sequence, agg)
                &&& final(self).same_settings(old(self))
                &&& final(self).last_submission@ == old(self).last_submission@
            },
    {
        if !self.is_source(source) {
            return Err(ErrorCode::SourceNotFound);
        }
        if !self.is_asset_registered(asset) {
            return Err(ErrorCode::AssetNotRegistered);
        }
        if self.config.bft_fault_tolerance > 0 {
            return Err(ErrorCode::CommitRevealRequired);
        }
        if price <= 0 {
            return Err(ErrorCode::InvalidPrice);
        }
        if self.is_circuit_breaker_tripped(asset) {
            return Ok(None);
        }
        let entry = PriceEntry {
            price,
            timestamp,
            source,
            decimals: self.config.decimals,
            last_updated: now.sequence,
            ledger_timestamp: now.timestamp,
            volume: None,
        };
        self.record_submission(asset, source, entry);
        let ghost mid = *self;
        let agg = self.aggregate_if_enough(asset, now.sequence);
        proof {
            assert(mid.counted_sources(mid.submissions@, asset, now.sequence) == old(self).counted_sources(mid.submissions@, asset, now.sequence));
            assert(mid.entries_with(mid.submissions@, asset, now.sequence) == old(self).entries_with(mid.submissions@, asset, now.sequence));
            assert(mid.aggregation_overdue(asset, now.sequence) == old(self).aggregation_overdue(asset, now.sequence));
        }
        Ok(agg)
    }
}

/// Integer quotient rounded toward zero, for a divisor of either sign.
pub open spec fn quot_trunc(a: int, b: int) -> int {
    if b > 0 {
        crate::arith::div_trunc(a, b)
    } else {
        -crate::arith::div_trunc(a, -b)
    }
}

/// Percentage change from `old_price` to `current`: the difference, then
/// the difference times 100, each saturating, divided by `old_price`
/// rounding toward zero.
pub open spec fn change_percent_spec(old_price: int, current: int) -> int {
    quot_trunc(crate::arith::clamp_i128(crate::arith::clamp_i128(current - old_price) * 100), old_price)
}

impl PriceOracleContract {
    /// The history entry `ledgers_back` ledgers before `now` (saturating at
    /// ledger 0).
    pub open spec fn entry_back(&self, asset: u64, ledgers_back: u32, now: LedgerInfo) -> Option<PriceHistoryEntry> {
        let target = if ledgers_back >= now.sequence { 0 } else { (now.sequence - ledgers_back) as u32 };
        crate::history::find_entry(self.history(asset), target)
    }

    /// Percentage change of `current_price` from the price recorded
    /// `ledgers_back` ledgers before `now`; `None` when nothing was recorded
    /// at that ledger or the recorded price is zero.
    pub fn historical_price_change_percent(&self, asset: u64, current_price: AggregatePrice, ledgers_back: u32, now: LedgerInfo) -> (r: Option<i128>)
        requires
            self.entry_back(asset, ledgers_back, now) matches Some(e) && e.price == -1
                ==> crate::arith::clamp_i128(crate::arith::clamp_i128(current_price.price + 1) * 100) != i128::MIN,
        ensures
            r == match self.entry_back(asset, ledgers_back, now) {
                None => None,
                Some(e) => if e.price == 0 {
                    None
                } else {
                    Some(change_percent_spec(e.price as int, current_price.price as int) as i128)
                },
            },
    {
        let target = now.sequence.saturating_sub(ledgers_back);
        let empty: Vec<PriceHistoryEntry> = Vec::new();
        let h: &Vec<PriceHistoryEntry> = match self.histories.get(&asset) {
            Some(h) => h,
            None => &empty,
        };
        assert(h@ == self.history(asset));
        let old_price = match crate::history::read_history_entry(h, target) {
            Some(e) => e.price,
            None => {
                return None;
            },
        };
        if old_price == 0 {
            return None;
        }
        let diff = crate::arith::sat_sub(current_price.price, old_price);
        let scaled = crate::arith::sat_mul(diff, 100);
        let q = scaled.checked_div(old_price);
        proof {
            let x = scaled as int;
            let d = old_price as int;
            assert(x == crate::arith::clamp_i128(crate::arith::clamp_i128(current_price.price - d) * 100));
            let out = if x == 0 {
                0
            } else if x > 0 && d > 0 {
                x / d
            } else if x < 0 && d < 0 {
                (x * -1) / (d * -1)
            } else if x < 0 {
                ((x * -1) / d) * -1
            } else {
                (x / (d * -1)) * -1
            };
            assert(out == quot_trunc(x, d));
            assert(i128::MIN <= out <= i128::MAX) by (nonlinear_arith)
                requires
                    out == quot_trunc(x, d),
                    d != 0,
                    i128::MIN <= x <= i128::MAX,
                    i128::MIN <= d <= i128::MAX,
                    d == -1 ==> x != i128::MIN;
            assert(q == Some(out as i128));
        }
        q
    }
}

} // verus!
