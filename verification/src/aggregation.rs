//! Aggregation of stored submissions into the published price of an asset:
//! source sampling, the minimum-submission-interval compliance filter, the
//! configured statistic, version bookkeeping and the history write with
//! compaction and bounded pruning.

use vstd::prelude::*;
use crate::crypto::{sampling_seed, sampling_seed_spec};
use crate::history::{ledgers_increasing, prune_count, prune_oldest, should_skip_on_write, should_skip_spec, upsert_entry, upsert_spec};
use crate::oracle::{pair_key, pair_key_spec, PriceOracleContract};
use crate::stats::{aggregate_prices, aggregate_spec};
use crate::types::{AggregatePrice, CompactionMetadata, PriceEntry, PriceHistoryEntry};

verus! {

broadcast use vstd::std_specs::hash::group_hash_axioms;

/// One step of the sampling generator for position `i`.
pub open spec fn lcg_spec(seed: u32, i: int) -> int {
    (seed as int * 1664525 + i % 0x1_0000_0000 + 1013904223) % 0x1_0000_0000
}

/// Sources picked from position `i` on when `kept` are already picked and
/// `max_agg` are wanted: a source is taken when the rest are all needed or
/// the generator value modulo the remaining count is below the number still
/// needed.
pub open spec fn sample_from(s: Seq<u64>, i: int, kept: int, max_agg: int, seed: u32) -> Seq<u64>
    decreases s.len() - i,
{
    if i >= s.len() || kept >= max_agg || i < 0 {
        Seq::empty()
    } else {
        let remaining = s.len() - i;
        let needed = max_agg - kept;
        if needed >= remaining || lcg_spec(seed, i) % remaining < needed {
            seq![s[i]] + sample_from(s, i + 1, kept + 1, max_agg, seed)
        } else {
            sample_from(s, i + 1, kept, max_agg, seed)
        }
    }
}

/// The sources taking part in an aggregation: all of them, unless more are
/// registered than `max_agg > 0`, in which case a deterministic sample of
/// `max_agg` of them.
pub open spec fn select_spec(s: Seq<u64>, max_agg: u32, seed: u32) -> Seq<u64> {
    if max_agg > 0 && s.len() > max_agg {
        sample_from(s, 0, 0, max_agg as int, seed)
    } else {
        s
    }
}

/// Picks the sources that take part in an aggregation (see `select_spec`).
pub fn select_sources(sources: &Vec<u64>, max_agg: u32, seed: u32) -> (r: Vec<u64>)
    ensures
        r@ == select_spec(sources@, max_agg, seed),
{
    let total = sources.len();
    if !(max_agg > 0 && total > max_agg as usize) {
        return sources.clone();
    }
    let mut selected: Vec<u64> = Vec::new();
    let mut kept: usize = 0;
    let mut i: usize = 0;
    while i < total && kept < max_agg as usize
        invariant
            total == sources.len(),
            0 <= i <= total,
            kept <= max_agg,
            kept <= i,
            selected@ + sample_from(sources@, i as int, kept as int, max_agg as int, seed)
                == sample_from(sources@, 0, 0, max_agg as int, seed),
        decreases total - i,
    {
        let remaining = total - i;
        let needed = max_agg as usize - kept;
        let iu: u32 = (i as u64 % 0x1_0000_0000) as u32;
        let h: u32 = seed.wrapping_mul(1664525u32).wrapping_add(iu).wrapping_add(1013904223u32);
        proof {
            assert(h as int == lcg_spec(seed, i as int)) by {
                let a = (seed as int * 1664525) % 0x1_0000_0000;
                let b = (a + iu) % 0x1_0000_0000;
                assert(h as int == (b + 1013904223) % 0x1_0000_0000);
                vstd::arithmetic::div_mod::lemma_add_mod_noop(seed as int * 1664525, iu as int, 0x1_0000_0000);
                vstd::arithmetic::div_mod::lemma_add_mod_noop(seed as int * 1664525 + iu, 1013904223, 0x1_0000_0000);
                vstd::arithmetic::div_mod::lemma_mod_twice(seed as int * 1664525 + iu, 0x1_0000_0000);
                vstd::arithmetic::div_mod::lemma_add_mod_noop(a, iu as int, 0x1_0000_0000);
                vstd::arithmetic::div_mod::lemma_add_mod_noop(b, 1013904223, 0x1_0000_0000);
            }
        }
        if needed >= remaining || (h as usize) % remaining < needed {
            selected.push(sources[i]);
            kept = kept + 1;
            proof {
                assert(selected@ + sample_from(sources@, (i + 1) as int, kept as int, max_agg as int, seed)
                    =~= selected@.drop_last() + sample_from(sources@, i as int, (kept - 1) as int, max_agg as int, seed));
            }
        }
        i = i + 1;
    }
    proof {
        assert(sample_from(sources@, i as int, kept as int, max_agg as int, seed) == Seq::<u64>::empty());
        assert(selected@ =~= selected@ + Seq::<u64>::empty());
    }
    selected
}

/// Ledgers elapsed since the last recorded submission of `src` for `asset`.
pub open spec fn since_last_in(last: Map<u128, u32>, asset: u64, src: u64, ledger: u32) -> int {
    let l = last[pair_key_spec(asset, src)];
    if ledger >= l {
        ledger - l
    } else {
        0
    }
}

/// Whether `src` meets the minimum submission interval for `asset`: no
/// interval is configured, or its last recorded submission is at most
/// `min_interval` ledgers old.
pub open spec fn compliant_in(last: Map<u128, u32>, asset: u64, src: u64, min_interval: u32, ledger: u32) -> bool {
    min_interval == 0 || (last.contains_key(pair_key_spec(asset, src)) && since_last_in(last, asset, src, ledger) <= min_interval)
}

/// The submission of `src` for `asset` in `subs`.
pub open spec fn submission_in(subs: Map<u128, PriceEntry>, asset: u64, src: u64) -> Option<PriceEntry> {
    if subs.contains_key(pair_key_spec(asset, src)) {
        Some(subs[pair_key_spec(asset, src)])
    } else {
        None
    }
}

/// Submissions of the compliant sources among `sel`, in order.
pub open spec fn contributions_in(subs: Map<u128, PriceEntry>, last: Map<u128, u32>, asset: u64, sel: Seq<u64>, min_interval: u32, ledger: u32) -> Seq<PriceEntry>
    decreases sel.len(),
{
    if sel.len() == 0 {
        Seq::empty()
    } else {
        let rest = contributions_in(subs, last, asset, sel.drop_last(), min_interval, ledger);
        let src = sel.last();
        if compliant_in(last, asset, src, min_interval, ledger) && submission_in(subs, asset, src) is Some {
            rest.push(submission_in(subs, asset, src).unwrap())
        } else {
            rest
        }
    }
}

impl PriceOracleContract {
    /// Minimum submission interval in force for `asset`: its own setting
    /// when one is stored, else the contract-wide one.
    pub open spec fn min_interval_spec(&self, asset: u64) -> u32 {
        if self.asset_min_interval@.contains_key(asset) {
            self.asset_min_interval@[asset]
        } else {
            self.config.min_submission_interval
        }
    }

    /// Ledgers elapsed since the last recorded submission of `src` for `asset`.
    pub open spec fn since_last(&self, asset: u64, src: u64, ledger: u32) -> int {
        since_last_in(self.last_submission@, asset, src, ledger)
    }

    /// Whether `src` submitted for `asset` but too long ago, which flags it
    /// non-compliant.
    pub open spec fn is_overdue(&self, asset: u64, src: u64, min_interval: u32, ledger: u32) -> bool {
        min_interval > 0 && self.last_submission@.contains_key(pair_key_spec(asset, src))
            && self.since_last(asset, src, ledger) > min_interval
    }

    /// Stored submissions of the compliant sources among `sel`, in order.
    pub open spec fn contributions(&self, asset: u64, sel: Seq<u64>, min_interval: u32, ledger: u32) -> Seq<PriceEntry> {
        contributions_in(self.submissions@, self.last_submission@, asset, sel, min_interval, ledger)
    }

    /// The stored submission of `source` for `asset`.
    pub fn get_submission(&self, asset: u64, source: u64) -> (r: Option<PriceEntry>)
        ensures
            r == self.submission(asset, source),
    {
        let k = pair_key(asset, source);
        match self.submissions.get(&k) {
            Some(e) => Some(*e),
            None => None,
        }
    }

    /// Minimum submission interval in force for `asset`.
    pub fn effective_min_interval(&self, asset: u64) -> (r: u32)
        ensures
            r == self.min_interval_spec(asset),
    {
        match self.asset_min_interval.get(&asset) {
            Some(v) => *v,
            None => self.config.min_submission_interval,
        }
    }

    /// Collects the submissions of the compliant sources among `sel`, and the
    /// sources among them that are overdue.
    pub fn collect_contributions(&self, asset: u64, sel: &Vec<u64>, min_interval: u32, ledger: u32) -> (r: (Vec<PriceEntry>, Vec<u64>))
        ensures
            r.0@ == self.contributions(asset, sel@, min_interval, ledger),
            forall|s: u64| r.1@.contains(s) <==> (sel@.contains(s) && self.is_overdue(asset, s, min_interval, ledger)),
            r.0.len() <= sel.len(),
    {
        let n = sel.len();
        let mut entries: Vec<PriceEntry> = Vec::new();
        let mut overdue: Vec<u64> = Vec::new();
        let mut i: usize = 0;
        while i < n
            invariant
                n == sel.len(),
                0 <= i <= n,
                entries@ == self.contributions(asset, sel@.subrange(0, i as int), min_interval, ledger),
                entries.len() <= i,
                forall|s: u64| overdue@.contains(s) <==> (sel@.subrange(0, i as int).contains(s) && self.is_overdue(asset, s, min_interval, ledger)),
            decreases n - i,
        {
            let src = sel[i];
            proof {
                assert(sel@.subrange(0, i + 1).drop_last() =~= sel@.subrange(0, i as int));
                assert(sel@.subrange(0, i + 1).last() == src);
            }
            let ghost prev_overdue = overdue@;
            let mut compliant = true;
            if min_interval > 0 {
                let k = pair_key(asset, src);
                match self.last_submission.get(&k) {
                    Some(last) => {
                        let since: u32 = if ledger >= *last { ledger - *last } else { 0 };
                        if since > min_interval {
                            overdue.push(src);
                            compliant = false;
                        }
                    },
                    None => {
                        compliant = false;
                    },
                }
            }
            if compliant {
                match self.get_submission(asset, src) {
                    Some(e) => {
                        entries.push(e);
                    },
                    None => {},
                }
            }
            proof {
                assert forall|s: u64| overdue@.contains(s) <==> (sel@.subrange(0, i + 1).contains(s) && self.is_overdue(asset, s, min_interval, ledger)) by {
                    if sel@.subrange(0, i + 1).contains(s) {
                        let k = choose|k: int| 0 <= k < i + 1 && #[trigger] sel@.subrange(0, i + 1)[k] == s;
                        if k < i {
                            assert(sel@.subrange(0, i as int)[k] == s);
                        }
                    }
                    if sel@.subrange(0, i as int).contains(s) {
                        let k = choose|k: int| 0 <= k < i && #[trigger] sel@.subrange(0, i as int)[k] == s;
                        assert(sel@.subrange(0, i + 1)[k] == s);
                    }
                    if overdue@.len() > prev_overdue.len() {
                        assert(overdue@ == prev_overdue.push(src));
                        if prev_overdue.contains(s) {
                            let j = choose|j: int| 0 <= j < prev_overdue.len() && #[trigger] prev_overdue[j] == s;
                            assert(overdue@[j] == s);
                        }
                        if overdue@.contains(s) && s != src {
                            let j = choose|j: int| 0 <= j < overdue@.len() && #[trigger] overdue@[j] == s;
                            assert(prev_overdue[j] == s);
                        }
                        assert(overdue@[overdue@.len() - 1] == src);
                    }
                }
            }
            i = i + 1;
        }
        proof {
            assert(sel@.subrange(0, n as int) =~= sel@);
        }
        (entries, overdue)
    }
}

/// Prices of the entries, in order.
pub open spec fn entry_prices(e: Seq<PriceEntry>) -> Seq<i128> {
    e.map_values(|x: PriceEntry| x.price)
}

/// Volumes of the entries (0 where none was given), in order.
pub open spec fn entry_volumes(e: Seq<PriceEntry>) -> Seq<i128> {
    e.map_values(|x: PriceEntry| match x.volume { Some(v) => v, None => 0 })
}

/// Latest timestamp among the entries (0 for none).
pub open spec fn latest_timestamp(e: Seq<PriceEntry>) -> u64
    decreases e.len(),
{
    if e.len() == 0 {
        0
    } else {
        let t = latest_timestamp(e.drop_last());
        if e.last().timestamp > t {
            e.last().timestamp
        } else {
            t
        }
    }
}

/// Prices, volumes and latest timestamp of the entries.
pub fn split_entries(entries: &Vec<PriceEntry>) -> (r: (Vec<i128>, Vec<i128>, u64))
    ensures
        r.0@ == entry_prices(entries@),
        r.1@ == entry_volumes(entries@),
        r.2 == latest_timestamp(entries@),
{
    let n = entries.len();
    let mut prices: Vec<i128> = Vec::new();
    let mut volumes: Vec<i128> = Vec::new();
    let mut latest: u64 = 0;
    let mut i: usize = 0;
    while i < n
        invariant
            n == entries.len(),
            0 <= i <= n,
            prices@ == entry_prices(entries@.subrange(0, i as int)),
            volumes@ == entry_volumes(entries@.subrange(0, i as int)),
            latest == latest_timestamp(entries@.subrange(0, i as int)),
        decreases n - i,
    {
        let e = entries[i];
        proof {
            assert(entries@.subrange(0, i + 1).drop_last() =~= entries@.subrange(0, i as int));
        }
        prices.push(e.price);
        volumes.push(match e.volume { Some(v) => v, None => 0 });
        if e.timestamp > latest {
            latest = e.timestamp;
        }
        proof {
            assert(prices@ =~= entry_prices(entries@.subrange(0, i + 1)));
            assert(volumes@ =~= entry_volumes(entries@.subrange(0, i + 1)));
        }
        i = i + 1;
    }
    proof {
        assert(entries@.subrange(0, n as int) =~= entries@);
    }
    (prices, volumes, latest)
}

/// A length as a `u32`, saturating.
pub open spec fn len_u32(n: nat) -> u32 {
    if n >= u32::MAX { u32::MAX } else { n as u32 }
}

/// `x + 1`, saturating at `u32::MAX`.
pub open spec fn inc_sat(x: u32) -> u32 {
    if x == u32::MAX { x } else { (x + 1) as u32 }
}

impl PriceOracleContract {
    /// Version of the aggregate publishing `price`: 0 for the first aggregate
    /// of `asset`; afterwards one more than the stored version when the price
    /// changes (saturating), the same otherwise.
    pub open spec fn next_version(&self, asset: u64, price: i128) -> u32 {
        match self.aggregate(asset) {
            Some(prev) => if prev.price != price { inc_sat(prev.version) } else { prev.version },
            None => 0,
        }
    }

    /// The aggregate published for `entries` at `ledger`.
    pub open spec fn aggregate_of(&self, asset: u64, entries: Seq<PriceEntry>) -> AggregatePrice {
        let price = aggregate_spec(entry_prices(entries), entry_volumes(entries), self.config.aggregation_method,
            self.config.bft_fault_tolerance, self.config.bft_method) as i128;
        AggregatePrice {
            price,
            timestamp: latest_timestamp(entries),
            num_sources: entries.len() as u32,
            decimals: self.config.decimals,
            is_override: false,
            version: self.next_version(asset, price),
        }
    }

    /// Whether `entries` are enough to publish a price.
    pub open spec fn enough(&self, entries: Seq<PriceEntry>) -> bool {
        entries.len() >= self.config.min_sources_required && entries.len() > 0
    }

    /// History of `asset` after recording aggregate `agg` at `ledger`: the
    /// entry is written unless compaction skips it, then the oldest entries
    /// beyond the global cap and then beyond the per-asset cap are dropped,
    /// at most `max_events_per_call` in all.
    pub open spec fn history_after(&self, asset: u64, agg: AggregatePrice, ledger: u32) -> Seq<PriceHistoryEntry> {
        let h0 = self.history(asset);
        let entry = PriceHistoryEntry { price: agg.price, timestamp: agg.timestamp, ledger, num_sources: agg.num_sources, is_interpolated: false };
        let skip = should_skip_spec(h0, self.config.compaction_threshold_bps, ledger, agg.price);
        let h1 = if skip { h0 } else { upsert_spec(h0, entry) };
        let p1 = prune_count(h1.len() as int, self.config.max_history_length as int, self.config.max_events_per_call as int);
        let h2 = h1.subrange(p1, h1.len() as int);
        let p2 = prune_count(h2.len() as int, self.config.max_history_per_asset as int, self.config.max_events_per_call - p1);
        h2.subrange(p2, h2.len() as int)
    }

    /// Compaction records after publishing `agg` at `ledger`: when the
    /// history write is skipped as within the compaction threshold, the
    /// asset's record counts the skipped entry (before) and the resulting
    /// history (after); otherwise the records are unchanged.
    pub open spec fn meta_after(&self, asset: u64, agg: AggregatePrice, ledger: u32) -> Map<u64, CompactionMetadata> {
        if should_skip_spec(self.history(asset), self.config.compaction_threshold_bps, ledger, agg.price) {
            let n = self.history_after(asset, agg, ledger).len();
            self.compaction_meta@.insert(asset, CompactionMetadata {
                original_count: inc_sat(len_u32(n)),
                compacted_count: len_u32(n),
                last_compaction_ledger: ledger,
                threshold_bps: self.config.compaction_threshold_bps,
            })
        } else {
            self.compaction_meta@
        }
    }

    /// Records `entries` as the new aggregate of `asset` at `ledger` and
    /// updates the history; returns the published aggregate.
    pub fn publish_aggregate(&mut self, asset: u64, entries: &Vec<PriceEntry>, ledger: u32) -> (r: AggregatePrice)
        requires
            old(self).wf(),
            entries.len() <= u32::MAX,
        ensures
            final(self).wf(),
            r == old(self).aggregate_of(asset, entries@),
            final(self).aggregates@ == old(self).aggregates@.insert(asset, r),
            final(self).histories@.contains_key(asset),
            final(self).history(asset) == old(self).history_after(asset, r, ledger),
            forall|a: u64| a != asset ==> final(self).histories@.contains_key(a) == old(self).histories@.contains_key(a)
                && (old(self).histories@.contains_key(a) ==> final(self).histories@[a] == old(self).histories@[a]),
            should_skip_spec(old(self).history(asset), old(self).config.compaction_threshold_bps, ledger, r.price)
                ==> final(self).compaction_meta@ == old(self).compaction_meta@.insert(asset, CompactionMetadata {
                    original_count: inc_sat(len_u32(final(self).history(asset).len())),
                    compacted_count: len_u32(final(self).history(asset).len()),
                    last_compaction_ledger: ledger,
                    threshold_bps: old(self).config.compaction_threshold_bps,
                }),
            !should_skip_spec(old(self).history(asset), old(self).config.compaction_threshold_bps, ledger, r.price)
                ==> final(self).compaction_meta@ == old(self).compaction_meta@,
            final(self).compaction_meta@ == old(self).meta_after(asset, r, ledger),
            final(self).config == old(self).config,
            final(self).sources@ == old(self).sources@,
            final(self).assets@ == old(self).assets@,
            final(self).submissions@ == old(self).submissions@,
            final(self).last_submission@ == old(self).last_submission@,
            final(self).non_compliant@ == old(self).non_compliant@,
            final(self).overrides@ == old(self).overrides@,
            final(self).asset_min_interval@ == old(self).asset_min_interval@,
            final(self).asset_resolution@ == old(self).asset_resolution@,
            final(self).price_bounds@ == old(self).price_bounds@,
            final(self).tripped@ == old(self).tripped@,
            final(self).paused_assets@ == old(self).paused_assets@,
            final(self).last_trigger@ == old(self).last_trigger@,
            final(self).nonces@ == old(self).nonces@,
            final(self).source_submission_counts@ == old(self).source_submission_counts@,
            final(self).total_submissions == old(self).total_submissions,
            final(self).commits@ == old(self).commits@,
            final(self).description@ == old(self).description@,
    {
        let (prices, volumes, latest) = split_entries(entries);
        let price = aggregate_prices(&prices, &volumes, self.config.aggregation_method, self.config.bft_fault_tolerance, self.config.bft_method);
        let version = match self.aggregates.get(&asset) {
            Some(prev) => {
                if prev.price != price {
                    if prev.version == u32::MAX { prev.version } else { prev.version + 1 }
                } else {
                    prev.version
                }
            },
            None => 0,
        };
        let agg = AggregatePrice {
            price,
            timestamp: latest,
            num_sources: entries.len() as u32,
            decimals: self.config.decimals,
            is_override: false,
            version,
        };
        self.aggregates.insert(asset, agg);
        let h0: Vec<PriceHistoryEntry> = match self.histories.get(&asset) {
            Some(h) => h.clone(),
            None => Vec::new(),
        };
        assert(h0@ == old(self).history(asset));
        assert(ledgers_increasing(h0@));
        let entry = PriceHistoryEntry { price, timestamp: latest, ledger, num_sources: agg.num_sources, is_interpolated: false };
        let skip = should_skip_on_write(&h0, self.config.compaction_threshold_bps, ledger, price);
        let h1 = if skip { h0 } else { upsert_entry(&h0, entry) };
        let max_events = self.config.max_events_per_call;
        let (h2, p1) = prune_oldest(&h1, self.config.max_history_length, max_events);
        let (h3, _p2) = prune_oldest(&h2, self.config.max_history_per_asset, max_events - p1);
        let len3 = h3.len();
        proof {
            assert forall|a: int, b: int| 0 <= a < b < h3@.len() implies h3@[a].ledger < h3@[b].ledger by {
                assert(h3@[a] == h1@[a + p1 + _p2]);
                assert(h3@[b] == h1@[b + p1 + _p2]);
            }
        }
        self.histories.insert(asset, h3);
        if skip {
            let compacted = if len3 as u128 >= u32::MAX as u128 { u32::MAX } else { len3 as u32 };
            let original = if compacted == u32::MAX { u32::MAX } else { compacted + 1 };
            let meta = CompactionMetadata {
                original_count: original,
                compacted_count: compacted,
                last_compaction_ledger: ledger,
                threshold_bps: self.config.compaction_threshold_bps,
            };
            self.compaction_meta.insert(asset, meta);
        }
        agg
    }
}


/// `m` with every key of `asset` paired with a source in `srcs` set to `true`.
pub open spec fn flag_all(m: Map<u128, bool>, asset: u64, srcs: Set<u64>) -> Map<u128, bool> {
    m.union_prefer_right(Map::new(|k: u128| exists|s: u64| srcs.contains(s) && pair_key_spec(asset, s) == k, |k: u128| true))
}

impl PriceOracleContract {
    /// Sources taking part in an aggregation of `asset` at `ledger`.
    pub open spec fn aggregation_selection(&self, ledger: u32) -> Seq<u64> {
        select_spec(self.sources@, self.config.max_aggregation_sources, sampling_seed_spec(ledger) as u32)
    }

    /// Submissions that an aggregation of `asset` at `ledger` uses.
    pub open spec fn aggregation_entries(&self, asset: u64, ledger: u32) -> Seq<PriceEntry> {
        self.contributions(asset, self.aggregation_selection(ledger), self.min_interval_spec(asset), ledger)
    }

    /// Sources of the selection that an aggregation flags as overdue.
    pub open spec fn aggregation_overdue(&self, asset: u64, ledger: u32) -> Set<u64> {
        Set::new(|s: u64| self.aggregation_selection(ledger).contains(s) && self.is_overdue(asset, s, self.min_interval_spec(asset), ledger))
    }

    /// Flags each source of `srcs` as non-compliant for `asset`.
    pub fn flag_non_compliant(&mut self, asset: u64, srcs: &Vec<u64>)
        ensures
            final(self).non_compliant@ == flag_all(old(self).non_compliant@, asset, srcs@.to_set()),
            final(self).config == old(self).config,
            final(self).description@ == old(self).description@,
            final(self).sources@ == old(self).sources@,
            final(self).assets@ == old(self).assets@,
            final(self).submissions@ == old(self).submissions@,
            final(self).last_submission@ == old(self).last_submission@,
            final(self).aggregates@ == old(self).aggregates@,
            final(self).histories@ == old(self).histories@,
            final(self).overrides@ == old(self).overrides@,
            final(self).asset_min_interval@ == old(self).asset_min_interval@,
            final(self).asset_resolution@ == old(self).asset_resolution@,
            final(self).price_bounds@ == old(self).price_bounds@,
            final(self).tripped@ == old(self).tripped@,
            final(self).paused_assets@ == old(self).paused_assets@,
            final(self).last_trigger@ == old(self).last_trigger@,
            final(self).nonces@ == old(self).nonces@,
            final(self).source_submission_counts@ == old(self).source_submission_counts@,
            final(self).total_submissions == old(self).total_submissions,
            final(self).commits@ == old(self).commits@,
            final(self).compaction_meta@ == old(self).compaction_meta@,
    {
        let n = srcs.len();
        let mut i: usize = 0;
        while i < n
            invariant
                n == srcs.len(),
                0 <= i <= n,
                self.non_compliant@ == flag_all(old(self).non_compliant@, asset, srcs@.subrange(0, i as int).to_set()),
                self.config == old(self).config,
                self.description@ == old(self).description@,
                self.sources@ == old(self).sources@,
                self.assets@ == old(self).assets@,
                self.submissions@ == old(self).submissions@,
                self.last_submission@ == old(self).last_submission@,
                self.aggregates@ == old(self).aggregates@,
                self.histories@ == old(self).histories@,
                self.overrides@ == old(self).overrides@,
                self.asset_min_interval@ == old(self).asset_min_interval@,
                self.asset_resolution@ == old(self).asset_resolution@,
                self.price_bounds@ == old(self).price_bounds@,
                self.tripped@ == old(self).tripped@,
                self.paused_assets@ == old(self).paused_assets@,
                self.last_trigger@ == old(self).last_trigger@,
                self.nonces@ == old(self).nonces@,
                self.source_submission_counts@ == old(self).source_submission_counts@,
                self.total_submissions == old(self).total_submissions,
                self.commits@ == old(self).commits@,
                self.compaction_meta@ == old(self).compaction_meta@,
            decreases n - i,
        {
            let k = pair_key(asset, srcs[i]);
            self.non_compliant.insert(k, true);
            proof {
                let before = srcs@.subrange(0, i as int).to_set();
                let after = srcs@.subrange(0, i + 1).to_set();
                assert(after =~= before.insert(srcs@[i as int])) by {
                    assert forall|x: u64| after.contains(x) <==> before.insert(srcs@[i as int]).contains(x) by {
                        if after.contains(x) {
                            let j = choose|j: int| 0 <= j < i + 1 && #[trigger] srcs@.subrange(0, i + 1)[j] == x;
                            if j < i {
                                assert(srcs@.subrange(0, i as int)[j] == x);
                            }
                        }
                        if before.contains(x) {
                            let j = choose|j: int| 0 <= j < i && #[trigger] srcs@.subrange(0, i as int)[j] == x;
                            assert(srcs@.subrange(0, i + 1)[j] == x);
                        }
                        if x == srcs@[i as int] {
                            assert(srcs@.subrange(0, i + 1)[i as int] == x);
                        }
                    }
                }
                assert(self.non_compliant@ =~= flag_all(old(self).non_compliant@, asset, after));
            }
            i = i + 1;
        }
        proof {
            assert(srcs@.subrange(0, n as int) =~= srcs@);
        }
    }

    /// Re-aggregates `asset` at `ledger` from the stored submissions:
    /// overdue sources are flagged, and when enough compliant sources have
    /// submitted, the aggregate is published and recorded in the history.
    pub fn aggregate_asset(&mut self, asset: u64, ledger: u32) -> (r: Option<AggregatePrice>)
        requires
            old(self).wf(),
            old(self).sources@.len() <= u32::MAX,
        ensures
            final(self).wf(),
            final(self).non_compliant@ == flag_all(old(self).non_compliant@, asset, old(self).aggregation_overdue(asset, ledger)),
            r is Some <==> old(self).enough(old(self).aggregation_entries(asset, ledger)),
            r matches Some(agg) ==> {
                &&& agg == old(self).aggregate_of(asset, old(self).aggregation_entries(asset, ledger))
                &&& final(self).aggregates@ == old(self).aggregates@.insert(asset, agg)
                &&& final(self).history(asset) == old(self).history_after(asset, agg, ledger)
                &&& final(self).compaction_meta@ == old(self).meta_after(asset, agg, ledger)
            },
            r is None ==> final(self).aggregates@ == old(self).aggregates@ && final(self).histories@ == old(self).histories@
                && final(self).compaction_meta@ == old(self).compaction_meta@,
            forall|a: u64| a != asset ==> final(self).histories@.contains_key(a) == old(self).histories@.contains_key(a)
                && (old(self).histories@.contains_key(a) ==> final(self).histories@[a] == old(self).histories@[a]),
            final(self).config == old(self).config,
            final(self).sources@ == old(self).sources@,
            final(self).assets@ == old(self).assets@,
            final(self).submissions@ == old(self).submissions@,
            final(self).last_submission@ == old(self).last_submission@,
            final(self).overrides@ == old(self).overrides@,
            final(self).asset_min_interval@ == old(self).asset_min_interval@,
            final(self).asset_resolution@ == old(self).asset_resolution@,
            final(self).price_bounds@ == old(self).price_bounds@,
            final(self).tripped@ == old(self).tripped@,
            final(self).paused_assets@ == old(self).paused_assets@,
            final(self).last_trigger@ == old(self).last_trigger@,
            final(self).nonces@ == old(self).nonces@,
            final(self).source_submission_counts@ == old(self).source_submission_counts@,
            final(self).total_submissions == old(self).total_submissions,
            final(self).commits@ == old(self).commits@,
            final(self).description@ == old(self).description@,
    {
        let max_agg = self.config.max_aggregation_sources;
        let total = self.sources.len();
        let seed: u32 = if max_agg > 0 && total > max_agg as usize {
            sampling_seed(ledger)
        } else {
            0
        };
        let sel = select_sources(&self.sources, max_agg, seed);
        assert(sel@ == old(self).aggregation_selection(ledger));
        let mi = self.effective_min_interval(asset);
        let (entries, overdue) = self.collect_contributions(asset, &sel, mi, ledger);
        proof {
            assert(overdue@.to_set() =~= old(self).aggregation_overdue(asset, ledger));
        }
        self.flag_non_compliant(asset, &overdue);
        assert(self.contributions(asset, sel@, mi, ledger) == old(self).contributions(asset, sel@, mi, ledger)) by {
            lemma_contributions_frame(old(self), self, asset, sel@, mi, ledger);
        }
        if entries.len() as u128 >= self.config.min_sources_required as u128 && entries.len() > 0 {
            proof {
                lemma_select_len(old(self).sources@, max_agg, seed);
            }
            let agg = self.publish_aggregate(asset, &entries, ledger);
            Some(agg)
        } else {
            None
        }
    }
}

/// Contributions only depend on the submissions and last-submission ledgers.
pub proof fn lemma_contributions_frame(a: &PriceOracleContract, b: &PriceOracleContract, asset: u64, sel: Seq<u64>, mi: u32, ledger: u32)
    requires
        a.submissions@ == b.submissions@,
        a.last_submission@ == b.last_submission@,
    ensures
        a.contributions(asset, sel, mi, ledger) == b.contributions(asset, sel, mi, ledger),
    decreases sel.len(),
{
    if sel.len() > 0 {
        lemma_contributions_frame(a, b, asset, sel.drop_last(), mi, ledger);
    }
}

/// The selection is no longer than the source list.
pub proof fn lemma_select_len(s: Seq<u64>, max_agg: u32, seed: u32)
    ensures
        select_spec(s, max_agg, seed).len() <= s.len(),
{
    if max_agg > 0 && s.len() > max_agg {
        lemma_sample_len(s, 0, 0, max_agg as int, seed);
    }
}

proof fn lemma_sample_len(s: Seq<u64>, i: int, kept: int, max_agg: int, seed: u32)
    requires
        0 <= i,
    ensures
        sample_from(s, i, kept, max_agg, seed).len() <= if i <= s.len() { s.len() - i } else { 0 },
    decreases s.len() - i,
{
    if i < s.len() && kept < max_agg {
        lemma_sample_len(s, i + 1, kept + 1, max_agg, seed);
        lemma_sample_len(s, i + 1, kept, max_agg, seed);
    }
}

} // verus!
