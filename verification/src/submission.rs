//! Price submission: validation of a single submission against the asset's
//! bounds and circuit breaker, storage of accepted submissions and the
//! aggregation that follows them.

use vstd::prelude::*;
use crate::aggregation::{contributions_in, entry_prices, entry_volumes, flag_all, inc_sat, latest_timestamp, select_sources, select_spec, split_entries};
use crate::arith::clamp_i128;
use crate::oracle::{lemma_pair_key_injective, pair_key, pair_key_spec, PriceOracleContract};
use crate::stats::{aggregate_prices, aggregate_spec};
use crate::types::{AggregatePrice, ErrorCode, LedgerInfo, PriceBounds, PriceEntry};

verus! {

broadcast use vstd::std_specs::hash::group_hash_axioms;

/// Whether `m` holds `true` for `key`.
pub open spec fn flag_on(m: Map<u64, bool>, key: u64) -> bool {
    m.contains_key(key) && m[key]
}

/// Bounds applied to an asset for which none were configured.
pub open spec fn default_bounds() -> PriceBounds {
    PriceBounds { min_price: 0, max_price: i128::MAX, max_change_bps_per_ledger: 0 }
}

/// The entry stored for an accepted submission.
pub open spec fn submitted_entry(price: i128, timestamp: u64, source: u64, decimals: u32, ledger: u32, ledger_time: u64, volume: Option<i128>) -> PriceEntry {
    PriceEntry { price, timestamp, source, decimals, last_updated: ledger, ledger_timestamp: ledger_time, volume }
}

impl PriceOracleContract {
    /// Validation bounds of `asset`.
    pub open spec fn bounds_of(&self, asset: u64) -> PriceBounds {
        if self.price_bounds@.contains_key(asset) { self.price_bounds@[asset] } else { default_bounds() }
    }

    /// Whether submissions for `asset` are blocked: it is paused or its
    /// circuit breaker has tripped.
    pub open spec fn asset_blocked(&self, asset: u64) -> bool {
        flag_on(self.paused_assets@, asset) || flag_on(self.tripped@, asset)
    }

    /// Price of the published aggregate of `asset` (0 when none).
    pub open spec fn prev_price(&self, asset: u64) -> i128 {
        match self.aggregate(asset) {
            Some(a) => a.price,
            None => 0,
        }
    }

    /// Entries a candidate aggregation uses when `source` submits `entry`
    /// for `asset` at `ledger`: the sources selected with the ledger as seed,
    /// each with its stored submission, `source` with the new one, and no
    /// interval filter.
    pub open spec fn candidate_entries(&self, asset: u64, source: u64, entry: PriceEntry, ledger: u32) -> Seq<PriceEntry> {
        contributions_in(
            self.submissions@.insert(pair_key_spec(asset, source), entry),
            self.last_submission@,
            asset,
            select_spec(self.sources@, self.config.max_aggregation_sources, ledger),
            0,
            ledger,
        )
    }

    /// The aggregate `asset` would get if `source` submitted `price` at
    /// `timestamp`, when enough sources contribute.
    pub open spec fn candidate_spec(&self, asset: u64, source: u64, price: i128, timestamp: u64, ledger: u32) -> Option<AggregatePrice> {
        let c = self.candidate_entries(asset, source, submitted_entry(price, timestamp, source, 0, 0, 0, None), ledger);
        if c.len() >= self.config.min_sources_required && c.len() > 0 {
            Some(AggregatePrice {
                price: aggregate_spec(entry_prices(c), entry_volumes(c), self.config.aggregation_method,
                    self.config.bft_fault_tolerance, self.config.bft_method) as i128,
                timestamp: latest_timestamp(c),
                num_sources: c.len() as u32,
                decimals: self.config.decimals,
                is_override: false,
                version: 0,
            })
        } else {
            None
        }
    }

    /// Outcome of validating a submission of `price` for `asset` by `source`
    /// against bounds, pause state and the per-ledger change limit.
    pub open spec fn validate_spec(&self, asset: u64, source: u64, price: i128, timestamp: u64, ledger: u32) -> Result<(), ErrorCode> {
        let b = self.bounds_of(asset);
        let prev = self.prev_price(asset);
        let cand = self.candidate_spec(asset, source, price, timestamp, ledger);
        if price < b.min_price || price > b.max_price {
            Err(ErrorCode::PriceOutOfBounds)
        } else if self.asset_blocked(asset) {
            Err(ErrorCode::AssetPaused)
        } else if b.max_change_bps_per_ledger > 0 && prev > 0 && cand is Some {
            let c = cand.unwrap().price;
            let diff = if c > prev { c - prev } else { prev - c };
            if diff > i128::MAX {
                Err(ErrorCode::ArithmeticOverflow)
            } else if clamp_i128(diff * 10_000) / (prev as int) > b.max_change_bps_per_ledger {
                Err(ErrorCode::CircuitBreakerTripped)
            } else {
                Ok(())
            }
        } else {
            Ok(())
        }
    }

    /// Validation bounds of `asset`.
    pub fn get_price_bounds(&self, asset: u64) -> (r: PriceBounds)
        ensures
            r == self.bounds_of(asset),
    {
        match self.price_bounds.get(&asset) {
            Some(b) => *b,
            None => PriceBounds { min_price: 0, max_price: i128::MAX, max_change_bps_per_ledger: 0 },
        }
    }

    /// Whether `asset` has been paused.
    pub fn is_asset_paused(&self, asset: u64) -> (r: bool)
        ensures
            r == flag_on(self.paused_assets@, asset),
    {
        match self.paused_assets.get(&asset) {
            Some(b) => *b,
            None => false,
        }
    }

    /// Whether the circuit breaker of `asset` has tripped.
    pub fn is_circuit_breaker_tripped(&self, asset: u64) -> (r: bool)
        ensures
            r == flag_on(self.tripped@, asset),
    {
        match self.tripped.get(&asset) {
            Some(b) => *b,
            None => false,
        }
    }

    /// Entries of the selected sources `sel` for a candidate aggregation in
    /// which `source` has just submitted `entry`.
    fn candidate_collect(&self, asset: u64, sel: &Vec<u64>, source: u64, entry: PriceEntry, ledger: u32) -> (r: Vec<PriceEntry>)
        ensures
            r@ == contributions_in(self.submissions@.insert(pair_key_spec(asset, source), entry), self.last_submission@, asset, sel@, 0, ledger),
            r.len() <= sel.len(),
    {
        let ghost subs2 = self.submissions@.insert(pair_key_spec(asset, source), entry);
        let n = sel.len();
        let mut out: Vec<PriceEntry> = Vec::new();
        let mut i: usize = 0;
        while i < n
            invariant
                n == sel.len(),
                0 <= i <= n,
                subs2 == self.submissions@.insert(pair_key_spec(asset, source), entry),
                out@ == contributions_in(subs2, self.last_submission@, asset, sel@.subrange(0, i as int), 0, ledger),
                out.len() <= i,
            decreases n - i,
        {
            let src = sel[i];
            proof {
                assert(sel@.subrange(0, i + 1).drop_last() =~= sel@.subrange(0, i as int));
                assert(sel@.subrange(0, i + 1).last() == src);
                lemma_pair_key_injective(asset, src, asset, source);
            }
            if src == source {
                out.push(entry);
            } else {
                let k = pair_key(asset, src);
                match self.submissions.get(&k) {
                    Some(e) => {
                        out.push(*e);
                    },
                    None => {},
                }
            }
            i = i + 1;
        }
        proof {
            assert(sel@.subrange(0, n as int) =~= sel@);
        }
        out
    }

    /// The aggregate `asset` would get if `source` submitted `price` at
    /// `timestamp` in ledger `ledger` (version 0), or `None` when fewer than
    /// the required number of sources would contribute.
    pub fn build_candidate_aggregate(&self, asset: u64, source: u64, price: i128, timestamp: u64, ledger: u32) -> (r: Option<AggregatePrice>)
        requires
            self.sources@.len() <= u32::MAX,
        ensures
            r == self.candidate_spec(asset, source, price, timestamp, ledger),
    {
        let sel = select_sources(&self.sources, self.config.max_aggregation_sources, ledger);
        proof {
            crate::aggregation::lemma_select_len(self.sources@, self.config.max_aggregation_sources, ledger);
        }
        let entry = PriceEntry { price, timestamp, source, decimals: 0, last_updated: 0, ledger_timestamp: 0, volume: None };
        let entries = self.candidate_collect(asset, &sel, source, entry, ledger);
        if entries.len() as u128 >= self.config.min_sources_required as u128 && entries.len() > 0 {
            let (prices, volumes, latest) = split_entries(&entries);
            let p = aggregate_prices(&prices, &volumes, self.config.aggregation_method, self.config.bft_fault_tolerance, self.config.bft_method);
            Some(AggregatePrice {
                price: p,
                timestamp: latest,
                num_sources: entries.len() as u32,
                decimals: self.config.decimals,
                is_override: false,
                version: 0,
            })
        } else {
            None
        }
    }

    /// Checks a submission of `price` for `asset` by `source` against the
    /// asset's bounds, its pause and circuit-breaker state and, when a
    /// per-ledger change limit is set, the change the submission would cause
    /// to the published price.
    pub fn validate_price_submission(&self, asset: u64, source: u64, price: i128, timestamp: u64, ledger: u32) -> (r: Result<(), ErrorCode>)
        requires
            self.sources@.len() <= u32::MAX,
        ensures
            r == self.validate_spec(asset, source, price, timestamp, ledger),
    {
        let b = self.get_price_bounds(asset);
        if price < b.min_price || price > b.max_price {
            return Err(ErrorCode::PriceOutOfBounds);
        }
        if self.is_asset_paused(asset) || self.is_circuit_breaker_tripped(asset) {
            return Err(ErrorCode::AssetPaused);
        }
        if b.max_change_bps_per_ledger > 0 {
            let prev: i128 = match self.aggregates.get(&asset) {
                Some(a) => a.price,
                None => 0,
            };
            if prev > 0 {
                match self.build_candidate_aggregate(asset, source, price, timestamp, ledger) {
                    Some(c) => {
                        let d = if c.price > prev { c.price.checked_sub(prev) } else { prev.checked_sub(c.price) };
                        let diff = match d {
                            Some(v) => v,
                            None => {
                                return Err(ErrorCode::ArithmeticOverflow);
                            },
                        };
                        let scaled = crate::arith::sat_mul(diff, 10_000);
                        let change_bps = scaled / prev;
                        proof {
                            assert(scaled >= 0);
                            assert(change_bps as int == (scaled as int) / (prev as int));
                        }
                        if change_bps > b.max_change_bps_per_ledger as i128 {
                            return Err(ErrorCode::CircuitBreakerTripped);
                        }
                    },
                    None => {},
                }
            }
        }
        Ok(())
    }
}

impl PriceOracleContract {
    /// Entries an aggregation of `asset` at `ledger` would use if the stored
    /// submissions were `subs`.
    pub open spec fn entries_with(&self, subs: Map<u128, PriceEntry>, asset: u64, ledger: u32) -> Seq<PriceEntry> {
        contributions_in(subs, self.last_submission@, asset, self.aggregation_selection(ledger), self.min_interval_spec(asset), ledger)
    }

    /// Number of sources counted before an aggregation of
    /// `asset` at `ledger`, were the stored submissions `subs`: the sources
    /// selected with the ledger as seed that meet the submission interval and
    /// have a submission.
    pub open spec fn counted_sources(&self, subs: Map<u128, PriceEntry>, asset: u64, ledger: u32) -> nat {
        contributions_in(subs, self.last_submission@, asset,
            select_spec(self.sources@, self.config.max_aggregation_sources, ledger), self.min_interval_spec(asset), ledger).len()
    }

    /// `after` is what an aggregation of `asset` at `ledger` makes of `self`
    /// with the stored submissions taken to be `subs`, `r` its outcome.
    pub open spec fn aggregation_outcome(&self, subs: Map<u128, PriceEntry>, after: &PriceOracleContract, asset: u64, ledger: u32, r: Option<AggregatePrice>) -> bool {
        let entries = self.entries_with(subs, asset, ledger);
        &&& after.non_compliant@ == flag_all(self.non_compliant@, asset, self.aggregation_overdue(asset, ledger))
        &&& (r is Some <==> self.enough(entries))
        &&& (r matches Some(agg) ==> {
            &&& agg == self.aggregate_of(asset, entries)
            &&& after.aggregates@ == self.aggregates@.insert(asset, agg)
            &&& after.history(asset) == self.history_after(asset, agg, ledger)
            &&& after.compaction_meta@ == self.meta_after(asset, agg, ledger)
        })
        &&& (r is None ==> after.aggregates@ == self.aggregates@ && after.histories@ == self.histories@
            && after.compaction_meta@ == self.compaction_meta@)
        &&& forall|a: u64| a != asset ==> after.histories@.contains_key(a) == self.histories@.contains_key(a)
            && (self.histories@.contains_key(a) ==> after.histories@[a] == self.histories@[a])
    }

    /// Like `aggregation_outcome`, behind the source count: when fewer sources than
    /// required are counted, nothing happens.
    pub open spec fn guarded_outcome(&self, subs: Map<u128, PriceEntry>, after: &PriceOracleContract, asset: u64, ledger: u32, r: Option<AggregatePrice>) -> bool {
        if self.counted_sources(subs, asset, ledger) >= self.config.min_sources_required {
            self.aggregation_outcome(subs, after, asset, ledger, r)
        } else {
            &&& r is None
            &&& after.non_compliant@ == self.non_compliant@
            &&& after.aggregates@ == self.aggregates@
            &&& after.histories@ == self.histories@
            &&& after.compaction_meta@ == self.compaction_meta@
        }
    }

    /// Fields that neither a submission nor an aggregation changes.
    pub open spec fn same_settings(&self, other: &PriceOracleContract) -> bool {
        &&& self.config == other.config
        &&& self.description@ == other.description@
        &&& self.sources@ == other.sources@
        &&& self.assets@ == other.assets@
        &&& self.overrides@ == other.overrides@
        &&& self.asset_min_interval@ == other.asset_min_interval@
        &&& self.asset_resolution@ == other.asset_resolution@
        &&& self.price_bounds@ == other.price_bounds@
        &&& self.tripped@ == other.tripped@
        &&& self.paused_assets@ == other.paused_assets@
        &&& self.last_trigger@ == other.last_trigger@
        &&& self.commits@ == other.commits@
    }

    /// Last accepted nonce of `source` (0 when none).
    pub open spec fn last_nonce(&self, source: u64) -> u64 {
        if self.nonces@.contains_key(source) { self.nonces@[source] } else { 0 }
    }

    /// Number of accepted submissions of `source`.
    pub open spec fn submission_count(&self, source: u64) -> u32 {
        if self.source_submission_counts@.contains_key(source) { self.source_submission_counts@[source] } else { 0 }
    }

    /// Outcome of the checks on a single submission, in the order they are
    /// made.
    pub open spec fn submit_check(&self, source: u64, asset: u64, price: i128, timestamp: u64, nonce: u64, now: LedgerInfo) -> Result<(), ErrorCode> {
        if self.config.paused {
            Err(ErrorCode::ContractPaused)
        } else if !self.is_source_spec(source) {
            Err(ErrorCode::SourceNotFound)
        } else if !self.is_asset_spec(asset) {
            Err(ErrorCode::AssetNotRegistered)
        } else if self.config.bft_fault_tolerance > 0 {
            Err(ErrorCode::CommitRevealRequired)
        } else if nonce <= self.last_nonce(source) {
            Err(ErrorCode::InvalidNonce)
        } else if price <= 0 {
            Err(ErrorCode::InvalidPrice)
        } else if self.validate_spec(asset, source, price, timestamp, now.sequence) is Err {
            self.validate_spec(asset, source, price, timestamp, now.sequence)
        } else if timestamp > now.timestamp + self.config.timestamp_threshold {
            Err(ErrorCode::InvalidTimestamp)
        } else {
            Ok(())
        }
    }

    /// Number of sources counted before an aggregation of
    /// `asset` at `ledger`.
    pub fn count_contributing_sources(&self, asset: u64, ledger: u32) -> (r: u32)
        requires
            self.sources@.len() <= u32::MAX,
        ensures
            r == self.counted_sources(self.submissions@, asset, ledger),
    {
        let sel = select_sources(&self.sources, self.config.max_aggregation_sources, ledger);
        proof {
            crate::aggregation::lemma_select_len(self.sources@, self.config.max_aggregation_sources, ledger);
        }
        let mi = self.effective_min_interval(asset);
        let (entries, _overdue) = self.collect_contributions(asset, &sel, mi, ledger);
        entries.len() as u32
    }

    /// Aggregates `asset` at `ledger` when the source count reaches at least the
    /// required number of sources.
    pub fn aggregate_if_enough(&mut self, asset: u64, ledger: u32) -> (r: Option<AggregatePrice>)
        requires
            old(self).wf(),
            old(self).sources@.len() <= u32::MAX,
        ensures
            final(self).wf(),
            old(self).guarded_outcome(old(self).submissions@, final(self), asset, ledger, r),
            final(self).same_settings(old(self)),
            final(self).submissions@ == old(self).submissions@,
            final(self).last_submission@ == old(self).last_submission@,
            final(self).nonces@ == old(self).nonces@,
            final(self).source_submission_counts@ == old(self).source_submission_counts@,
            final(self).total_submissions == old(self).total_submissions,
    {
        let n = self.count_contributing_sources(asset, ledger);
        if n >= self.config.min_sources_required {
            self.aggregate_asset(asset, ledger)
        } else {
            None
        }
    }

    /// Stores `entry` as the submission of `source` for `asset` and counts it.
    pub fn record_submission(&mut self, asset: u64, source: u64, entry: PriceEntry)
        requires
            old(self).wf(),
        ensures
            final(self).wf(),
            final(self).submissions@ == old(self).submissions@.insert(pair_key_spec(asset, source), entry),
            final(self).total_submissions == inc_sat(old(self).total_submissions),
            final(self).source_submission_counts@ == old(self).source_submission_counts@.insert(source, inc_sat(old(self).submission_count(source))),
            final(self).same_settings(old(self)),
            final(self).last_submission@ == old(self).last_submission@,
            final(self).non_compliant@ == old(self).non_compliant@,
            final(self).aggregates@ == old(self).aggregates@,
            final(self).histories@ == old(self).histories@,
            final(self).compaction_meta@ == old(self).compaction_meta@,
            final(self).nonces@ == old(self).nonces@,
    {
        let k = pair_key(asset, source);
        self.submissions.insert(k, entry);
        self.total_submissions = if self.total_submissions == u32::MAX { u32::MAX } else { self.total_submissions + 1 };
        let count: u32 = match self.source_submission_counts.get(&source) {
            Some(c) => *c,
            None => 0,
        };
        let next = if count == u32::MAX { u32::MAX } else { count + 1 };
        self.source_submission_counts.insert(source, next);
    }

    /// Runs the checks on a single submission.
    fn check_submission(&self, source: u64, asset: u64, price: i128, timestamp: u64, nonce: u64, now: LedgerInfo) -> (r: Result<(), ErrorCode>)
        requires
            self.sources@.len() <= u32::MAX,
        ensures
            r == self.submit_check(source, asset, price, timestamp, nonce, now),
    {
        if self.config.paused {
            return Err(ErrorCode::ContractPaused);
        }
        if !self.is_source(source) {
            return Err(ErrorCode::SourceNotFound);
        }
        if !self.is_asset_registered(asset) {
            return Err(ErrorCode::AssetNotRegistered);
        }
        if self.config.bft_fault_tolerance > 0 {
            return Err(ErrorCode::CommitRevealRequired);
        }
        let last: u64 = match self.nonces.get(&source) {
            Some(n) => *n,
            None => 0,
        };
        if nonce <= last {
            return Err(ErrorCode::InvalidNonce);
        }
        if price <= 0 {
            return Err(ErrorCode::InvalidPrice);
        }
        match self.validate_price_submission(asset, source, price, timestamp, now.sequence) {
            Err(e) => {
                return Err(e);
            },
            Ok(()) => {},
        }
        if timestamp > now.timestamp.saturating_add(self.config.timestamp_threshold) {
            return Err(ErrorCode::InvalidTimestamp);
        }
        Ok(())
    }

    /// Accepts a price from a registered source for a registered asset at
    /// ledger `now`, with a nonce that must exceed the source's last one.
    /// The submission is stored and, when the source count reaches enough sources,
    /// the asset is re-aggregated; the new aggregate, if any, is returned.
    /// A refused submission leaves the state unchanged.
    pub fn submit_price(&mut self, source: u64, asset: u64, price: i128, timestamp: u64, nonce: u64, now: LedgerInfo) -> (r: Result<Option<AggregatePrice>, ErrorCode>)
        requires
            old(self).wf(),
            old(self).sources@.len() <= u32::MAX,
        ensures
            final(self).wf(),
            r is Err <==> old(self).submit_check(source, asset, price, timestamp, nonce, now) is Err,
            r matches Err(e) ==> old(self).submit_check(source, asset, price, timestamp, nonce, now) == Err::<(), ErrorCode>(e)
                && final(self).config == old(self).config && final(self).same_data(old(self)),
            r matches Ok(agg) ==> {
                let entry = submitted_entry(price, timestamp, source, old(self).config.decimals, now.sequence, now.timestamp, None);
                let subs = old(self).submissions@.insert(pair_key_spec(asset, source), entry);
                &&& final(self).submissions@ == subs
                &&& final(self).nonces@ == old(self).nonces@.insert(source, nonce)
                &&& final(self).total_submissions == inc_sat(old(self).total_submissions)
                &&& final(self).source_submission_counts@ == old(self).source_submission_counts@.insert(source, inc_sat(old(self).submission_count(source)))
                &&& old(self).guarded_outcome(subs, final(self), asset, now.sequence, agg)
                &&& final(self).same_settings(old(self))
                &&& final(self).last_submission@ == old(self).last_submission@
            },
    {
        match self.check_submission(source, asset, price, timestamp, nonce, now) {
            Err(e) => {
                return Err(e);
            },
            Ok(()) => {},
        }
        self.nonces.insert(source, nonce);
        let entry = PriceEntry {
            price,
            timestamp,
            source,
            decimals: self.config.decimals,
            last_updated: now.sequence,
            ledger_timestamp: now.timestamp,
            volume: None,
        };
        self.record_submission(asset, source, entry);
        let ghost mid = *self;
        let agg = self.aggregate_if_enough(asset, now.sequence);
        proof {
            assert(mid.counted_sources(mid.submissions@, asset, now.sequence) == old(self).counted_sources(mid.submissions@, asset, now.sequence));
            assert(mid.entries_with(mid.submissions@, asset, now.sequence) == old(self).entries_with(mid.submissions@, asset, now.sequence));
            assert(mid.aggregation_overdue(asset, now.sequence) == old(self).aggregation_overdue(asset, now.sequence));
        }
        Ok(agg)
    }
}

impl PriceOracleContract {
    /// Outcome of the checks on a submission that carries a volume.
    pub open spec fn volume_check(&self, source: u64, asset: u64, price: i128, timestamp: u64, volume: Option<i128>, now: LedgerInfo) -> Result<(), ErrorCode> {
        if self.config.paused {
            Err(ErrorCode::ContractPaused)
        } else if !self.is_source_spec(source) {
            Err(ErrorCode::SourceNotFound)
        } else if !self.is_asset_spec(asset) {
            Err(ErrorCode::AssetNotRegistered)
        } else if self.config.bft_fault_tolerance > 0 {
            Err(ErrorCode::CommitRevealRequired)
        } else if price <= 0 || (volume matches Some(v) && v < 0) {
            Err(ErrorCode::InvalidPrice)
        } else if self.validate_spec(asset, source, price, timestamp, now.sequence) is Err {
            self.validate_spec(asset, source, price, timestamp, now.sequence)
        } else if timestamp > now.timestamp + self.config.timestamp_threshold {
            Err(ErrorCode::InvalidTimestamp)
        } else {
            Ok(())
        }
    }

    /// Accepts a price with an optional traded volume (used by the
    /// volume-weighted method) and re-aggregates the asset unconditionally.
    /// A refused submission leaves the state unchanged.
    pub fn submit_price_with_volume(&mut self, source: u64, asset: u64, price: i128, timestamp: u64, volume: Option<i128>, now: LedgerInfo) -> (r: Result<Option<AggregatePrice>, ErrorCode>)
        requires
            old(self).wf(),
            old(self).sources@.len() <= u32::MAX,
        ensures
            final(self).wf(),
            r is Err <==> old(self).volume_check(source, asset, price, timestamp, volume, now) is Err,
            r matches Err(e) ==> old(self).volume_check(source, asset, price, timestamp, volume, now) == Err::<(), ErrorCode>(e)
                && final(self).config == old(self).config && final(self).same_data(old(self)),
            r matches Ok(agg) ==> {
                let entry = submitted_entry(price, timestamp, source, old(self).config.decimals, now.sequence, now.timestamp, volume);
                let subs = old(self).submissions@.insert(pair_key_spec(asset, source), entry);
                &&& final(self).submissions@ == subs
                &&& final(self).nonces@ == old(self).nonces@
                &&& final(self).total_submissions == inc_sat(old(self).total_submissions)
                &&& final(self).source_submission_counts@ == old(self).source_submission_counts@.insert(source, inc_sat(old(self).submission_count(source)))
                &&& old(self).aggregation_outcome(subs, final(self), asset, now.sequence, agg)
                &&& final(self).same_settings(old(self))
                &&& final(self).last_submission@ == old(self).last_submission@
            },
    {
        if self.config.paused {
            return Err(ErrorCode::ContractPaused);
        }
        if !self.is_source(source) {
            return Err(ErrorCode::SourceNotFound);
        }
        if !self.is_asset_registered(asset) {
            return Err(ErrorCode::AssetNotRegistered);
        }
        if self.config.bft_fault_tolerance > 0 {
            return Err(ErrorCode::CommitRevealRequired);
        }
        let negative_volume = match volume {
            Some(v) => v < 0,
            None => false,
        };
        if price <= 0 || negative_volume {
            return Err(ErrorCode::InvalidPrice);
        }
        match self.validate_price_submission(asset, source, price, timestamp, now.sequence) {
            Err(e) => {
                return Err(e);
            },
            Ok(()) => {},
        }
        if timestamp > now.timestamp.saturating_add(self.config.timestamp_threshold) {
            return Err(ErrorCode::InvalidTimestamp);
        }
        let entry = PriceEntry {
            price,
            timestamp,
            source,
            decimals: self.config.decimals,
            last_updated: now.sequence,
            ledger_timestamp: now.timestamp,
            volume,
        };
        self.record_submission(asset, source, entry);
        let ghost mid = *self;
        let agg = self.aggregate_asset(asset, now.sequence);
        proof {
            assert(mid.aggregation_entries(asset, now.sequence) == old(self).entries_with(mid.submissions@, asset, now.sequence));
            assert(mid.aggregation_overdue(asset, now.sequence) == old(self).aggregation_overdue(asset, now.sequence));
        }
        Ok(agg)
    }
}

/// `x + n`, saturating at `u32::MAX`.
pub open spec fn sat_add_u32(x: u32, n: nat) -> u32 {
    if x + n > u32::MAX { u32::MAX } else { (x + n) as u32 }
}

/// Submissions after storing the batch `items` of `source`, in order.
pub open spec fn batch_subs(subs: Map<u128, PriceEntry>, source: u64, items: Seq<(u64, i128, u64)>, decimals: u32, now: LedgerInfo) -> Map<u128, PriceEntry>
    decreases items.len(),
{
    if items.len() == 0 {
        subs
    } else {
        let it = items.last();
        batch_subs(subs, source, items.drop_last(), decimals, now).insert(
            pair_key_spec(it.0, source), submitted_entry(it.1, it.2, source, decimals, now.sequence, now.timestamp, None))
    }
}

/// Last-submission ledgers after storing the batch `items` of `source`.
pub open spec fn batch_last(last: Map<u128, u32>, source: u64, items: Seq<(u64, i128, u64)>, ledger: u32) -> Map<u128, u32>
    decreases items.len(),
{
    if items.len() == 0 {
        last
    } else {
        batch_last(last, source, items.drop_last(), ledger).insert(pair_key_spec(items.last().0, source), ledger)
    }
}

/// Non-compliance flags after the batch `items` of `source` cleared theirs.
pub open spec fn batch_cleared(nc: Map<u128, bool>, source: u64, items: Seq<(u64, i128, u64)>) -> Map<u128, bool>
    decreases items.len(),
{
    if items.len() == 0 {
        nc
    } else {
        batch_cleared(nc, source, items.drop_last()).remove(pair_key_spec(items.last().0, source))
    }
}

/// Each state of `states` is the previous one after the guarded aggregation
/// of the next asset of `assets` at `ledger`, with outcome in `rs`.
pub open spec fn aggregation_chain(states: Seq<PriceOracleContract>, rs: Seq<Option<AggregatePrice>>, assets: Seq<u64>, ledger: u32) -> bool {
    &&& states.len() == assets.len() + 1
    &&& rs.len() == assets.len()
    &&& forall|i: int| 0 <= i < assets.len() ==> {
        &&& states[i].guarded_outcome(states[i].submissions@, &states[i + 1], #[trigger] assets[i], ledger, rs[i])
        &&& states[i + 1].same_settings(&states[i])
        &&& states[i + 1].submissions@ == states[i].submissions@
        &&& states[i + 1].last_submission@ == states[i].last_submission@
        &&& states[i + 1].nonces@ == states[i].nonces@
        &&& states[i + 1].source_submission_counts@ == states[i].source_submission_counts@
        &&& states[i + 1].total_submissions == states[i].total_submissions
    }
}

/// Assets of a batch, in order.
pub open spec fn batch_assets(items: Seq<(u64, i128, u64)>) -> Seq<u64> {
    items.map_values(|it: (u64, i128, u64)| it.0)
}

impl PriceOracleContract {
    /// Outcome of the checks on one entry of a batch.
    pub open spec fn batch_item_check(&self, source: u64, item: (u64, i128, u64), now: LedgerInfo) -> Result<(), ErrorCode> {
        let (asset, price, timestamp) = item;
        if !self.is_asset_spec(asset) {
            Err(ErrorCode::AssetNotRegistered)
        } else if price <= 0 {
            Err(ErrorCode::InvalidPrice)
        } else if self.validate_spec(asset, source, price, timestamp, now.sequence) is Err {
            self.validate_spec(asset, source, price, timestamp, now.sequence)
        } else if timestamp > now.timestamp + self.config.timestamp_threshold {
            Err(ErrorCode::InvalidTimestamp)
        } else {
            Ok(())
        }
    }

    /// Outcome of the checks on the entries of a batch: the first failure.
    pub open spec fn batch_items_check(&self, source: u64, items: Seq<(u64, i128, u64)>, now: LedgerInfo) -> Result<(), ErrorCode>
        decreases items.len(),
    {
        if items.len() == 0 {
            Ok(())
        } else {
            let pre = self.batch_items_check(source, items.drop_last(), now);
            if pre is Err { pre } else { self.batch_item_check(source, items.last(), now) }
        }
    }

    /// Outcome of the checks on a batch submission.
    pub open spec fn batch_check(&self, source: u64, items: Seq<(u64, i128, u64)>, now: LedgerInfo) -> Result<(), ErrorCode> {
        if self.config.paused {
            Err(ErrorCode::ContractPaused)
        } else if !self.is_source_spec(source) {
            Err(ErrorCode::SourceNotFound)
        } else if self.config.bft_fault_tolerance > 0 {
            Err(ErrorCode::CommitRevealRequired)
        } else {
            self.batch_items_check(source, items, now)
        }
    }

    /// `stored` is `self` once the batch `items` of `source` has been stored
    /// at `now`, before any aggregation.
    pub open spec fn batch_stored(&self, stored: &PriceOracleContract, source: u64, items: Seq<(u64, i128, u64)>, now: LedgerInfo) -> bool {
        &&& stored.submissions@ == batch_subs(self.submissions@, source, items, self.config.decimals, now)
        &&& stored.last_submission@ == batch_last(self.last_submission@, source, items, now.sequence)
        &&& stored.non_compliant@ == batch_cleared(self.non_compliant@, source, items)
        &&& stored.total_submissions == sat_add_u32(self.total_submissions, items.len())
        &&& items.len() > 0 ==> stored.source_submission_counts@ == self.source_submission_counts@.insert(source, sat_add_u32(self.submission_count(source), items.len()))
        &&& items.len() == 0 ==> stored.source_submission_counts@ == self.source_submission_counts@
        &&& stored.same_settings(self)
        &&& stored.nonces@ == self.nonces@
        &&& stored.aggregates@ == self.aggregates@
        &&& stored.histories@ == self.histories@
        &&& stored.compaction_meta@ == self.compaction_meta@
    }

    /// Submits prices for several assets at once. Every entry is checked
    /// first, so that one bad entry refuses the whole batch and leaves the
    /// state unchanged; then all are stored (recording the ledger of the
    /// submission and clearing non-compliance), and then each asset in turn
    /// goes through the guarded aggregation.
    pub fn submit_prices(&mut self, source: u64, items: &Vec<(u64, i128, u64)>, now: LedgerInfo) -> (r: Result<(), ErrorCode>)
        requires
            old(self).wf(),
            old(self).sources@.len() <= u32::MAX,
        ensures
            final(self).wf(),
            r == old(self).batch_check(source, items@, now),
            r is Err ==> final(self).config == old(self).config && final(self).same_data(old(self)),
            r is Ok ==> exists|states: Seq<PriceOracleContract>, rs: Seq<Option<AggregatePrice>>| {
                &&& #[trigger] aggregation_chain(states, rs, batch_assets(items@), now.sequence)
                &&& old(self).batch_stored(&states[0], source, items@, now)
                &&& states.last() == *final(self)
            },
    {
        if self.config.paused {
            return Err(ErrorCode::ContractPaused);
        }
        if !self.is_source(source) {
            return Err(ErrorCode::SourceNotFound);
        }
        if self.config.bft_fault_tolerance > 0 {
            return Err(ErrorCode::CommitRevealRequired);
        }
        let n = items.len();
        let mut i: usize = 0;
        while i < n
            invariant
                n == items.len(),
                0 <= i <= n,
                self.sources@.len() <= u32::MAX,
                *self == *old(self),
                old(self).wf(),
                !old(self).config.paused,
                old(self).is_source_spec(source),
                old(self).config.bft_fault_tolerance == 0,
                self.batch_items_check(source, items@.subrange(0, i as int), now) is Ok,
            decreases n - i,
        {
            let (asset, price, timestamp) = items[i];
            proof {
                assert(items@.subrange(0, i + 1).drop_last() =~= items@.subrange(0, i as int));
                assert(items@.subrange(0, i + 1).last() == items@[i as int]);
            }
            let mut res: Result<(), ErrorCode> = Ok(());
            if !self.is_asset_registered(asset) {
                res = Err(ErrorCode::AssetNotRegistered);
            } else if price <= 0 {
                res = Err(ErrorCode::InvalidPrice);
            } else {
                match self.validate_price_submission(asset, source, price, timestamp, now.sequence) {
                    Err(e) => {
                        res = Err(e);
                    },
                    Ok(()) => {
                        if timestamp > now.timestamp.saturating_add(self.config.timestamp_threshold) {
                            res = Err(ErrorCode::InvalidTimestamp);
                        }
                    },
                }
            }
            assert(res == self.batch_item_check(source, items@[i as int], now));
            if res.is_err() {
                proof {
                    lemma_batch_first_error(self, source, items@, (i + 1) as int, now);
                }
                return res;
            }
            i = i + 1;
        }
        proof {
            assert(items@.subrange(0, n as int) =~= items@);
        }
        let ghost start = *self;
        let ledger = now.sequence;
        let mut j: usize = 0;
        while j < n
            invariant
                n == items.len(),
                0 <= j <= n,
                self.wf(),
                start.wf(),
                start.sources@.len() <= u32::MAX,
                ledger == now.sequence,
                self.submissions@ == batch_subs(start.submissions@, source, items@.subrange(0, j as int), start.config.decimals, now),
                self.last_submission@ == batch_last(start.last_submission@, source, items@.subrange(0, j as int), ledger),
                self.non_compliant@ == batch_cleared(start.non_compliant@, source, items@.subrange(0, j as int)),
                self.total_submissions == sat_add_u32(start.total_submissions, j as nat),
                j > 0 ==> self.source_submission_counts@ == start.source_submission_counts@.insert(source, sat_add_u32(start.submission_count(source), j as nat)),
                j == 0 ==> self.source_submission_counts@ == start.source_submission_counts@,
                self.same_settings(&start),
                self.nonces@ == start.nonces@,
                self.aggregates@ == start.aggregates@,
                self.histories@ == start.histories@,
                self.compaction_meta@ == start.compaction_meta@,
            decreases n - j,
        {
            let (asset, price, timestamp) = items[j];
            proof {
                assert(items@.subrange(0, j + 1).drop_last() =~= items@.subrange(0, j as int));
                assert(items@.subrange(0, j + 1).last() == items@[j as int]);
            }
            let entry = PriceEntry {
                price,
                timestamp,
                source,
                decimals: self.config.decimals,
                last_updated: ledger,
                ledger_timestamp: now.timestamp,
                volume: None,
            };
            self.record_submission(asset, source, entry);
            let k = pair_key(asset, source);
            self.last_submission.insert(k, ledger);
            self.non_compliant.remove(&k);
            j = j + 1;
        }
        proof {
            assert(items@.subrange(0, n as int) =~= items@);
            assert(start.batch_stored(self, source, items@, now));
        }
        let ghost assets = batch_assets(items@);
        let ghost mut states: Seq<PriceOracleContract> = seq![*self];
        let ghost mut rs: Seq<Option<AggregatePrice>> = Seq::empty();
        let mut m: usize = 0;
        while m < n
            invariant
                n == items.len(),
                0 <= m <= n,
                self.wf(),
                self.sources@.len() <= u32::MAX,
                ledger == now.sequence,
                assets == batch_assets(items@),
                states.len() == m + 1,
                rs.len() == m,
                states.last() == *self,
                start.batch_stored(&states[0], source, items@, now),
                aggregation_chain(states, rs, assets.subrange(0, m as int), ledger),
            decreases n - m,
        {
            let asset = items[m].0;
            let ghost before = *self;
            let res = self.aggregate_if_enough(asset, ledger);
            proof {
                let states2 = states.push(*self);
                let rs2 = rs.push(res);
                let pre = assets.subrange(0, m as int);
                let post = assets.subrange(0, m + 1);
                assert(post[m as int] == asset);
                assert forall|i: int| 0 <= i < post.len() implies {
                    &&& states2[i].guarded_outcome(states2[i].submissions@, &states2[i + 1], #[trigger] post[i], ledger, rs2[i])
                    &&& states2[i + 1].same_settings(&states2[i])
                    &&& states2[i + 1].submissions@ == states2[i].submissions@
                    &&& states2[i + 1].last_submission@ == states2[i].last_submission@
                    &&& states2[i + 1].nonces@ == states2[i].nonces@
                    &&& states2[i + 1].source_submission_counts@ == states2[i].source_submission_counts@
                    &&& states2[i + 1].total_submissions == states2[i].total_submissions
                } by {
                    if i < m {
                        assert(pre[i] == post[i]);
                        assert(states2[i] == states[i]);
                        assert(states2[i + 1] == states[i + 1]);
                        assert(rs2[i] == rs[i]);
                    } else {
                        assert(states2[i] == before);
                    }
                }
                assert(aggregation_chain(states2, rs2, post, ledger));
                states = states2;
                rs = rs2;
            }
            m = m + 1;
        }
        proof {
            assert(assets.subrange(0, n as int) =~= assets);
            assert(aggregation_chain(states, rs, batch_assets(items@), now.sequence));
        }
        Ok(())
    }
}

/// A failure among the first `j` entries of a batch is the failure of the
/// whole batch.
pub proof fn lemma_batch_first_error(c: &PriceOracleContract, source: u64, items: Seq<(u64, i128, u64)>, j: int, now: LedgerInfo)
    requires
        0 <= j <= items.len(),
        c.batch_items_check(source, items.subrange(0, j), now) is Err,
    ensures
        c.batch_items_check(source, items, now) == c.batch_items_check(source, items.subrange(0, j), now),
    decreases items.len() - j,
{
    if j < items.len() {
        let next = items.subrange(0, j + 1);
        assert(next.drop_last() =~= items.subrange(0, j));
        lemma_batch_first_error(c, source, items, j + 1, now);
    } else {
        assert(items.subrange(0, j) =~= items);
    }
}

} // verus!
