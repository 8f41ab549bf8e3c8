//! The commit-reveal scheme: a source first commits to the hash of its price
//! during a round's commit window, then reveals price and salt during the
//! following reveal window; a matching reveal is stored like a submission
//! and may trigger an aggregation.

use vstd::prelude::*;
use std::collections::HashMap;
use crate::aggregation::inc_sat;
use crate::crypto::{i128_le_bytes, pow256, push_le, sha256, sha256_digest, u32_le_bytes, u32_to_le};
use crate::oracle::{lemma_pair_key_injective, pair_key, pair_key_spec, PriceOracleContract};
use crate::submission::submitted_entry;
use crate::types::{AggregatePrice, ErrorCode, LedgerInfo, PriceCommit, PriceEntry};

verus! {

broadcast use vstd::std_specs::hash::group_hash_axioms;

/// Most reveals accepted in one batch.
pub const MAX_BATCH_REVEALS: usize = 100;

/// Bytes hashed into a commitment: the price (16 bytes, little-endian two's
/// complement), the salt, and the round ledger (4 bytes, little-endian).
pub open spec fn commit_preimage(price: i128, salt: Seq<u8>, round: u32) -> Seq<u8> {
    i128_le_bytes(price) + salt + u32_le_bytes(round)
}

/// The commitment to `price` with `salt` in round `round`.
pub open spec fn commit_hash_spec(price: i128, salt: Seq<u8>, round: u32) -> Seq<u8> {
    sha256_digest(commit_preimage(price, salt, round))
}

/// Appends the little-endian two's-complement bytes of `x`.
pub fn push_i128_le(out: &mut Vec<u8>, x: i128)
    ensures
        final(out)@ == old(out)@ + i128_le_bytes(x),
{
    let u: u128 = if x < 0 {
        ((x + i128::MAX) + 1) as u128 + 0x8000_0000_0000_0000_0000_0000_0000_0000u128
    } else {
        x as u128
    };
    push_le(out, u, 16);
    proof {
        let w = if x < 0 { x + 0x1_0000_0000_0000_0000_0000_0000_0000_0000int } else { x as int };
        assert(u as int == w);
        assert(Seq::new(16, |i: int| ((u as int / pow256(i)) % 256) as u8) =~= i128_le_bytes(x));
    }
}

/// Appends all of `src` to `out`.
pub fn push_all(out: &mut Vec<u8>, src: &Vec<u8>)
    ensures
        final(out)@ == old(out)@ + src@,
{
    let ghost start = old(out)@;
    let n = src.len();
    let mut i: usize = 0;
    while i < n
        invariant
            n == src.len(),
            0 <= i <= n,
            out@ == start + src@.subrange(0, i as int),
        decreases n - i,
    {
        out.push(src[i]);
        i = i + 1;
        assert(out@ =~= start + src@.subrange(0, i as int));
    }
    assert(src@.subrange(0, n as int) =~= src@);
}

/// The commitment to `price` with `salt` in round `round`.
pub fn compute_commit_hash(price: i128, salt: &Vec<u8>, round: u32) -> (r: [u8; 32])
    ensures
        r@ == commit_hash_spec(price, salt@, round),
{
    let mut pre: Vec<u8> = Vec::new();
    push_i128_le(&mut pre, price);
    push_all(&mut pre, salt);
    let rb = u32_to_le(round);
    push_all(&mut pre, &rb);
    assert(pre@ =~= commit_preimage(price, salt@, round));
    sha256(pre.as_slice())
}

/// Whether two digests are equal.
pub fn digests_equal(a: &[u8; 32], b: &[u8; 32]) -> (r: bool)
    ensures
        r == (a@ == b@),
{
    let mut i: usize = 0;
    while i < 32
        invariant
            0 <= i <= 32,
            a@.len() == 32,
            b@.len() == 32,
            forall|j: int| 0 <= j < i ==> a@[j] == b@[j],
        decreases 32 - i,
    {
        if a[i] != b[i] {
            return false;
        }
        i = i + 1;
    }
    assert(a@ =~= b@);
    true
}

impl PriceOracleContract {
    /// Everything but the configuration and the commitments is unchanged.
    pub open spec fn same_except_commits(&self, other: &PriceOracleContract) -> bool {
        &&& self.description@ == other.description@
        &&& self.sources@ == other.sources@
        &&& self.assets@ == other.assets@
        &&& self.submissions@ == other.submissions@
        &&& self.last_submission@ == other.last_submission@
        &&& self.non_compliant@ == other.non_compliant@
        &&& self.aggregates@ == other.aggregates@
        &&& self.histories@ == other.histories@
        &&& self.overrides@ == other.overrides@
        &&& self.asset_min_interval@ == other.asset_min_interval@
        &&& self.asset_resolution@ == other.asset_resolution@
        &&& self.price_bounds@ == other.price_bounds@
        &&& self.tripped@ == other.tripped@
        &&& self.paused_assets@ == other.paused_assets@
        &&& self.last_trigger@ == other.last_trigger@
        &&& self.nonces@ == other.nonces@
        &&& self.source_submission_counts@ == other.source_submission_counts@
        &&& self.total_submissions == other.total_submissions
        &&& self.compaction_meta@ == other.compaction_meta@
    }

    /// The commitment of `source` for `asset` in round `round`.
    pub open spec fn commit_of(&self, asset: u64, source: u64, round: u32) -> Option<PriceCommit> {
        let k = pair_key_spec(asset, source);
        if self.commits@.contains_key(k) && self.commits@[k]@.contains_key(round) {
            Some(self.commits@[k]@[round])
        } else {
            None
        }
    }

    /// The commitments after `c` is recorded for `asset`, `source`, `round`.
    pub open spec fn commits_after(&self, after: &PriceOracleContract, asset: u64, source: u64, round: u32, c: PriceCommit) -> bool {
        forall|a: u64, s: u64, rd: u32| #[trigger] after.commit_of(a, s, rd)
            == if a == asset && s == source && rd == round { Some(c) } else { self.commit_of(a, s, rd) }
    }

    /// First ledger of the round containing `ledger`: rounds start every
    /// `commit_window` ledgers from ledger 0.
    pub open spec fn round_of(&self, ledger: u32) -> u32 {
        if self.config.commit_window == 0 {
            ledger
        } else {
            ((ledger / self.config.commit_window) * self.config.commit_window) as u32
        }
    }

    /// First ledger of the round containing `ledger`.
    pub fn current_round_ledger(&self, ledger: u32) -> (r: u32)
        ensures
            r == self.round_of(ledger),
            r <= ledger,
    {
        let w = self.config.commit_window;
        if w == 0 {
            return ledger;
        }
        proof {
            assert((ledger / w) * w <= ledger) by (nonlinear_arith)
                requires w > 0;
        }
        (ledger / w) * w
    }

    /// The commitment of `source` for `asset` in round `round`.
    pub fn get_commit(&self, asset: u64, source: u64, round: u32) -> (r: Option<PriceCommit>)
        ensures
            r == self.commit_of(asset, source, round),
    {
        let k = pair_key(asset, source);
        match self.commits.get(&k) {
            Some(inner) => match inner.get(&round) {
                Some(c) => Some(*c),
                None => None,
            },
            None => None,
        }
    }

    /// Records `c` as the commitment of `source` for `asset` in `round`.
    fn put_commit(&mut self, asset: u64, source: u64, round: u32, c: PriceCommit)
        ensures
            old(self).commits_after(final(self), asset, source, round, c),
            final(self).same_except_commits(old(self)),
            final(self).config == old(self).config,
    {
        let k = pair_key(asset, source);
        let mut inner: HashMap<u32, PriceCommit> = match self.commits.get(&k) {
            Some(m) => m.clone(),
            None => HashMap::new(),
        };
        inner.insert(round, c);
        self.commits.insert(k, inner);
        proof {
            assert forall|a: u64, s: u64, rd: u32| #[trigger] self.commit_of(a, s, rd)
                == if a == asset && s == source && rd == round { Some(c) } else { old(self).commit_of(a, s, rd) } by {
                lemma_pair_key_injective(a, s, asset, source);
            }
        }
    }

    /// Outcome of the checks on a commitment by `source` for `asset` at `now`.
    pub open spec fn commit_check(&self, source: u64, asset: u64, now: LedgerInfo) -> Result<(), ErrorCode> {
        let round = self.round_of(now.sequence);
        if self.config.paused {
            Err(ErrorCode::ContractPaused)
        } else if !self.is_source_spec(source) {
            Err(ErrorCode::SourceNotFound)
        } else if !self.is_asset_spec(asset) {
            Err(ErrorCode::AssetNotRegistered)
        } else if now.sequence >= round + self.config.commit_window {
            Err(ErrorCode::RevealWindowClosed)
        } else if self.commit_of(asset, source, round) is Some {
            Err(ErrorCode::AlreadyCommitted)
        } else {
            Ok(())
        }
    }

    /// Commits `hash` for `asset` in the round of `now`; allowed once per
    /// source, asset and round, and only inside the round's commit window.
    pub fn commit_price(&mut self, source: u64, asset: u64, hash: [u8; 32], now: LedgerInfo) -> (r: Result<(), ErrorCode>)
        requires
            now.sequence + old(self).config.commit_window <= u32::MAX,
        ensures
            r == old(self).commit_check(source, asset, now),
            final(self).config == old(self).config,
            final(self).same_except_commits(old(self)),
            r is Err ==> final(self).commits@ == old(self).commits@,
            r is Ok ==> old(self).commits_after(final(self), asset, source, old(self).round_of(now.sequence),
                PriceCommit { hash, committed_ledger: old(self).round_of(now.sequence), source, asset, revealed: false }),
    {
        if self.config.paused {
            return Err(ErrorCode::ContractPaused);
        }
        if !self.is_source(source) {
            return Err(ErrorCode::SourceNotFound);
        }
        if !self.is_asset_registered(asset) {
            return Err(ErrorCode::AssetNotRegistered);
        }
        let round = self.current_round_ledger(now.sequence);
        if now.sequence >= round + self.config.commit_window {
            return Err(ErrorCode::RevealWindowClosed);
        }
        if self.get_commit(asset, source, round).is_some() {
            return Err(ErrorCode::AlreadyCommitted);
        }
        let c = PriceCommit { hash, committed_ledger: round, source, asset, revealed: false };
        self.put_commit(asset, source, round, c);
        Ok(())
    }

    /// Outcome of the checks on a reveal of `price` with `salt` for the
    /// commitment of `source` for `asset` in round `round`.
    pub open spec fn reveal_check(&self, source: u64, asset: u64, price: i128, salt: Seq<u8>, round: u32, now: LedgerInfo) -> Result<(), ErrorCode> {
        let start = round + self.config.commit_window;
        let end = start + self.config.reveal_window;
        let c = self.commit_of(asset, source, round);
        if now.sequence < start {
            Err(ErrorCode::RevealWindowClosed)
        } else if now.sequence >= end {
            Err(ErrorCode::CommitExpired)
        } else if c is None {
            Err(ErrorCode::CommitNotFound)
        } else if c.unwrap().revealed {
            Err(ErrorCode::AlreadyCommitted)
        } else if commit_hash_spec(price, salt, round) != c.unwrap().hash@ {
            Err(ErrorCode::CommitHashMismatch)
        } else if price <= 0 {
            Err(ErrorCode::InvalidPrice)
        } else if price < self.bounds_of(asset).min_price {
            Err(ErrorCode::PriceBelowMinimum)
        } else {
            Ok(())
        }
    }

    /// `stored` is `self` once the reveal of `price` by `source` for `asset`
    /// in round `round` has been recorded at `now`, before the aggregation.
    pub open spec fn reveal_stored(&self, stored: &PriceOracleContract, source: u64, asset: u64, price: i128, round: u32, now: LedgerInfo) -> bool {
        let k = pair_key_spec(asset, source);
        let c = self.commit_of(asset, source, round).unwrap();
        &&& stored.submissions@ == self.submissions@.insert(k,
            submitted_entry(price, now.timestamp, source, self.config.decimals, now.sequence, now.timestamp, None))
        &&& stored.last_submission@ == self.last_submission@.insert(k, now.sequence)
        &&& stored.non_compliant@ == self.non_compliant@.remove(k)
        &&& self.commits_after(stored, asset, source, round, PriceCommit { revealed: true, ..c })
        &&& stored.config == self.config
        &&& stored.description@ == self.description@
        &&& stored.sources@ == self.sources@
        &&& stored.assets@ == self.assets@
        &&& stored.aggregates@ == self.aggregates@
        &&& stored.histories@ == self.histories@
        &&& stored.overrides@ == self.overrides@
        &&& stored.asset_min_interval@ == self.asset_min_interval@
        &&& stored.asset_resolution@ == self.asset_resolution@
        &&& stored.price_bounds@ == self.price_bounds@
        &&& stored.tripped@ == self.tripped@
        &&& stored.paused_assets@ == self.paused_assets@
        &&& stored.last_trigger@ == self.last_trigger@
        &&& stored.nonces@ == self.nonces@
        &&& stored.source_submission_counts@ == self.source_submission_counts@
        &&& stored.total_submissions == self.total_submissions
        &&& stored.compaction_meta@ == self.compaction_meta@
    }

    /// `after` is `self` once the guarded aggregation of `asset` at `ledger`
    /// ran with outcome `r`.
    pub open spec fn guarded_step(&self, after: &PriceOracleContract, asset: u64, ledger: u32, r: Option<AggregatePrice>) -> bool {
        &&& self.guarded_outcome(self.submissions@, after, asset, ledger, r)
        &&& after.same_settings(self)
        &&& after.submissions@ == self.submissions@
        &&& after.last_submission@ == self.last_submission@
        &&& after.nonces@ == self.nonces@
        &&& after.source_submission_counts@ == self.source_submission_counts@
        &&& after.total_submissions == self.total_submissions
    }

    /// `after` is `self` after a reveal with outcome `r`.
    pub open spec fn reveal_step(&self, after: &PriceOracleContract, source: u64, asset: u64, price: i128, salt: Seq<u8>, round: u32, now: LedgerInfo, r: Result<Option<AggregatePrice>, ErrorCode>) -> bool {
        match self.reveal_check(source, asset, price, salt, round, now) {
            Err(e) => r == Err::<Option<AggregatePrice>, ErrorCode>(e) && after.config == self.config && after.same_data(self),
            Ok(()) => match r {
                Ok(agg) => exists|mid: PriceOracleContract| self.reveal_stored(&mid, source, asset, price, round, now)
                    && #[trigger] mid.guarded_step(after, asset, now.sequence, agg),
                Err(_) => false,
            },
        }
    }

    /// Records a matching reveal: marks the commitment revealed and stores
    /// the price, the ledger of the submission and a cleared non-compliance.
    fn store_reveal(&mut self, source: u64, asset: u64, price: i128, round: u32, now: LedgerInfo, c: PriceCommit)
        requires
            old(self).wf(),
            old(self).commit_of(asset, source, round) == Some(c),
        ensures
            final(self).wf(),
            old(self).reveal_stored(final(self), source, asset, price, round, now),
    {
        let revealed = PriceCommit { revealed: true, ..c };
        self.put_commit(asset, source, round, revealed);
        let ghost p = *self;
        let k = pair_key(asset, source);
        let entry = PriceEntry {
            price,
            timestamp: now.timestamp,
            source,
            decimals: self.config.decimals,
            last_updated: now.sequence,
            ledger_timestamp: now.timestamp,
            volume: None,
        };
        self.submissions.insert(k, entry);
        self.last_submission.insert(k, now.sequence);
        self.non_compliant.remove(&k);
        proof {
            assert(self.commits@ == p.commits@);
            assert forall|a: u64, s: u64, rd: u32| #[trigger] self.commit_of(a, s, rd)
                == if a == asset && s == source && rd == round { Some(revealed) } else { old(self).commit_of(a, s, rd) } by {
                assert(self.commit_of(a, s, rd) == p.commit_of(a, s, rd));
            }
        }
    }

    /// Checks a reveal against its commitment and, when it matches, stores
    /// the price like a submission (timestamped with the ledger time),
    /// records the ledger of the submission, clears the source's
    /// non-compliance and runs the guarded aggregation.
    pub fn do_reveal(&mut self, source: u64, asset: u64, price: i128, salt: &Vec<u8>, round: u32, now: LedgerInfo) -> (r: Result<Option<AggregatePrice>, ErrorCode>)
        requires
            old(self).wf(),
            old(self).sources@.len() <= u32::MAX,
            round + old(self).config.commit_window + old(self).config.reveal_window <= u32::MAX,
        ensures
            final(self).wf(),
            old(self).reveal_step(final(self), source, asset, price, salt@, round, now, r),
    {
        let start = round + self.config.commit_window;
        let end = start + self.config.reveal_window;
        if now.sequence < start {
            return Err(ErrorCode::RevealWindowClosed);
        }
        if now.sequence >= end {
            return Err(ErrorCode::CommitExpired);
        }
        let c = match self.get_commit(asset, source, round) {
            Some(c) => c,
            None => {
                return Err(ErrorCode::CommitNotFound);
            },
        };
        if c.revealed {
            return Err(ErrorCode::AlreadyCommitted);
        }
        let expected = compute_commit_hash(price, salt, round);
        if !digests_equal(&expected, &c.hash) {
            return Err(ErrorCode::CommitHashMismatch);
        }
        if price <= 0 {
            return Err(ErrorCode::InvalidPrice);
        }
        let bounds = self.get_price_bounds(asset);
        if price < bounds.min_price {
            return Err(ErrorCode::PriceBelowMinimum);
        }
        self.store_reveal(source, asset, price, round, now, c);
        let ghost mid = *self;
        let agg = self.aggregate_if_enough(asset, now.sequence);
        assert(mid.guarded_step(self, asset, now.sequence, agg));
        Ok(agg)
    }

    /// Reveals a committed price (see `do_reveal`) after checking that the
    /// oracle runs and that source and asset are registered.
    pub fn reveal_price(&mut self, source: u64, asset: u64, price: i128, salt: &Vec<u8>, round: u32, now: LedgerInfo) -> (r: Result<Option<AggregatePrice>, ErrorCode>)
        requires
            old(self).wf(),
            old(self).sources@.len() <= u32::MAX,
            round + old(self).config.commit_window + old(self).config.reveal_window <= u32::MAX,
        ensures
            final(self).wf(),
            old(self).config.paused ==> r == Err::<Option<AggregatePrice>, ErrorCode>(ErrorCode::ContractPaused),
            !old(self).config.paused && !old(self).is_source_spec(source) ==> r == Err::<Option<AggregatePrice>, ErrorCode>(ErrorCode::SourceNotFound),
            !old(self).config.paused && old(self).is_source_spec(source) && !old(self).is_asset_spec(asset)
                ==> r == Err::<Option<AggregatePrice>, ErrorCode>(ErrorCode::AssetNotRegistered),
            old(self).config.paused || !old(self).is_source_spec(source) || !old(self).is_asset_spec(asset)
                ==> final(self).config == old(self).config && final(self).same_data(old(self)),
            !old(self).config.paused && old(self).is_source_spec(source) && old(self).is_asset_spec(asset)
                ==> old(self).reveal_step(final(self), source, asset, price, salt@, round, now, r),
    {
        if self.config.paused {
            return Err(ErrorCode::ContractPaused);
        }
        if !self.is_source(source) {
            return Err(ErrorCode::SourceNotFound);
        }
        if !self.is_asset_registered(asset) {
            return Err(ErrorCode::AssetNotRegistered);
        }
        self.do_reveal(source, asset, price, salt, round, now)
    }
}

/// One reveal of a batch: the asset must be registered, then the reveal
/// proceeds as `reveal_step` says.
pub open spec fn batch_reveal_step(before: PriceOracleContract, after: PriceOracleContract, source: u64, item: (u64, i128, Vec<u8>, u32), now: LedgerInfo, r: Result<Option<AggregatePrice>, ErrorCode>) -> bool {
    if !before.is_asset_spec(item.0) {
        r == Err::<Option<AggregatePrice>, ErrorCode>(ErrorCode::AssetNotRegistered) && after.config == before.config && after.same_data(&before)
    } else {
        before.reveal_step(&after, source, item.0, item.1, item.2@, item.3, now, r)
    }
}

/// Each state of `states` follows from the previous one by the next reveal
/// of `items`, with the outcome in `rs`.
pub open spec fn reveal_chain(states: Seq<PriceOracleContract>, rs: Seq<Result<Option<AggregatePrice>, ErrorCode>>, source: u64, items: Seq<(u64, i128, Vec<u8>, u32)>, now: LedgerInfo) -> bool {
    &&& states.len() == rs.len() + 1
    &&& rs.len() <= items.len()
    &&& forall|i: int| 0 <= i < rs.len() ==> batch_reveal_step(states[i], states[i + 1], source, #[trigger] items[i], now, rs[i])
}

impl PriceOracleContract {
    /// A copy of the state.
    pub fn snapshot(&self) -> (r: PriceOracleContract)
        ensures
            r.config == self.config,
            r.same_data(self),
    {
        let r = PriceOracleContract {
            config: self.config,
            description: self.description.clone(),
            sources: self.sources.clone(),
            assets: self.assets.clone(),
            submissions: self.submissions.clone(),
            last_submission: self.last_submission.clone(),
            non_compliant: self.non_compliant.clone(),
            aggregates: self.aggregates.clone(),
            histories: self.histories.clone(),
            overrides: self.overrides.clone(),
            asset_min_interval: self.asset_min_interval.clone(),
            asset_resolution: self.asset_resolution.clone(),
            price_bounds: self.price_bounds.clone(),
            tripped: self.tripped.clone(),
            paused_assets: self.paused_assets.clone(),
            last_trigger: self.last_trigger.clone(),
            nonces: self.nonces.clone(),
            source_submission_counts: self.source_submission_counts.clone(),
            total_submissions: self.total_submissions,
            compaction_meta: self.compaction_meta.clone(),
            commits: self.commits.clone(),
        };
        assert(r.sources@ =~= self.sources@);
        assert(r.assets@ =~= self.assets@);
        r
    }

    /// Reveals up to `MAX_BATCH_REVEALS` committed prices in order. The batch
    /// is atomic: when one reveal fails, the state is left as it was and that
    /// failure is returned.
    pub fn reveal_prices_batch(&mut self, source: u64, items: &Vec<(u64, i128, Vec<u8>, u32)>, now: LedgerInfo) -> (r: Result<(), ErrorCode>)
        requires
            old(self).wf(),
            old(self).sources@.len() <= u32::MAX,
            forall|i: int| 0 <= i < items.len() ==> #[trigger] items@[i].3 + old(self).config.commit_window + old(self).config.reveal_window <= u32::MAX,
        ensures
            final(self).wf(),
            old(self).config.paused ==> r == Err::<(), ErrorCode>(ErrorCode::ContractPaused),
            !old(self).config.paused && !old(self).is_source_spec(source) ==> r == Err::<(), ErrorCode>(ErrorCode::SourceNotFound),
            !old(self).config.paused && old(self).is_source_spec(source) && items.len() > MAX_BATCH_REVEALS
                ==> r == Err::<(), ErrorCode>(ErrorCode::InvalidConfiguration),
            r is Err ==> final(self).config == old(self).config && final(self).same_data(old(self)),
            !old(self).config.paused && old(self).is_source_spec(source) && items.len() <= MAX_BATCH_REVEALS
                ==> exists|states: Seq<PriceOracleContract>, rs: Seq<Result<Option<AggregatePrice>, ErrorCode>>| {
                    &&& #[trigger] reveal_chain(states, rs, source, items@, now)
                    &&& states[0] == *old(self)
                    &&& forall|i: int| 0 <= i < rs.len() - 1 ==> rs[i] is Ok
                    &&& r is Ok ==> rs.len() == items.len() && (rs.len() > 0 ==> rs.last() is Ok) && states.last() == *final(self)
                    &&& r matches Err(e) ==> rs.len() > 0 && rs.last() == Err::<Option<AggregatePrice>, ErrorCode>(e)
                },
    {
        if self.config.paused {
            return Err(ErrorCode::ContractPaused);
        }
        if !self.is_source(source) {
            return Err(ErrorCode::SourceNotFound);
        }
        let n = items.len();
        if n > MAX_BATCH_REVEALS {
            return Err(ErrorCode::InvalidConfiguration);
        }
        let backup = self.snapshot();
        let ghost mut states: Seq<PriceOracleContract> = seq![*self];
        let ghost mut rs: Seq<Result<Option<AggregatePrice>, ErrorCode>> = Seq::empty();
        let mut i: usize = 0;
        while i < n
            invariant
                n == items.len(),
                0 <= i <= n,
                self.wf(),
                self.sources@.len() <= u32::MAX,
                self.config == old(self).config,
                backup.config == old(self).config,
                backup.same_data(old(self)),
                n <= MAX_BATCH_REVEALS,
                old(self).wf(),
                !old(self).config.paused,
                old(self).is_source_spec(source),
                forall|j: int| 0 <= j < items.len() ==> #[trigger] items@[j].3 + old(self).config.commit_window + old(self).config.reveal_window <= u32::MAX,
                states.len() == i + 1,
                rs.len() == i,
                states[0] == *old(self),
                states.last() == *self,
                reveal_chain(states, rs, source, items@.subrange(0, i as int), now),
                forall|j: int| 0 <= j < rs.len() ==> rs[j] is Ok,
            decreases n - i,
        {
            let it = &items[i];
            let ghost before = *self;
            let res = if !self.is_asset_registered(it.0) {
                Err(ErrorCode::AssetNotRegistered)
            } else {
                self.do_reveal(source, it.0, it.1, &it.2, it.3, now)
            };
            proof {
                assert(batch_reveal_step(before, *self, source, items@[i as int], now, res));
                lemma_reveal_chain_push(states, rs, source, items@, i as int, *self, res, now);
                states = states.push(*self);
                rs = rs.push(res);
            }
            match res {
                Err(e) => {
                    *self = backup;
                    return Err(e);
                },
                Ok(_) => {},
            }
            i = i + 1;
        }
        proof {
            assert(items@.subrange(0, n as int) =~= items@);
        }
        Ok(())
    }
}

/// Extending a chain over the first `i` items by one more reveal gives a
/// chain over the first `i + 1`; a chain that ends in a failure is also a
/// chain over all items.
pub proof fn lemma_reveal_chain_push(states: Seq<PriceOracleContract>, rs: Seq<Result<Option<AggregatePrice>, ErrorCode>>, source: u64,
    items: Seq<(u64, i128, Vec<u8>, u32)>, i: int, next: PriceOracleContract, res: Result<Option<AggregatePrice>, ErrorCode>, now: LedgerInfo)
    requires
        0 <= i < items.len(),
        rs.len() == i,
        reveal_chain(states, rs, source, items.subrange(0, i), now),
        batch_reveal_step(states.last(), next, source, items[i], now, res),
    ensures
        reveal_chain(states.push(next), rs.push(res), source, items.subrange(0, i + 1), now),
        reveal_chain(states.push(next), rs.push(res), source, items, now),
{
    let states2 = states.push(next);
    let rs2 = rs.push(res);
    let pre = items.subrange(0, i);
    let post = items.subrange(0, i + 1);
    assert forall|j: int| 0 <= j < rs2.len() implies batch_reveal_step(states2[j], states2[j + 1], source, #[trigger] post[j], now, rs2[j]) by {
        assert(post[j] == items[j]);
        if j < i {
            assert(pre[j] == items[j]);
            assert(states2[j] == states[j]);
            assert(states2[j + 1] == states[j + 1]);
            assert(rs2[j] == rs[j]);
        } else {
            assert(states2[j] == states.last());
        }
    }
    assert forall|j: int| 0 <= j < rs2.len() implies batch_reveal_step(states2[j], states2[j + 1], source, #[trigger] items[j], now, rs2[j]) by {
        assert(post[j] == items[j]);
    }
}

} // verus!
