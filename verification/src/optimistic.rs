//! Optimistic price proposals: anyone may propose a price with a bond; it is
//! published when its dispute window passes undisputed, while a disputed
//! proposal is settled by the administrator, directly or from signed
//! external data.

use vstd::prelude::*;
use crate::crypto::{i128_le_bytes, sha256, sha256_digest, u64_le_bytes, push_le};
use crate::history::{ledgers_increasing, prune_oldest, should_skip_on_write, should_skip_spec, upsert_entry, upsert_spec};
use crate::oracle::PriceOracleContract;
use crate::types::{AggregatePrice, ErrorCode, LedgerInfo, PriceHistoryEntry};

verus! {

broadcast use vstd::std_specs::hash::group_hash_axioms;

/// Default dispute window, in ledgers.
pub const DEFAULT_DISPUTE_WINDOW: u32 = 120;
/// Default smallest bond of a proposal.
pub const DEFAULT_MIN_BOND: i128 = 100_000_000;

/// Lifecycle of a proposal.
#[derive(Clone, Copy, Debug, PartialEq, Eq, Structural)]
pub enum ProposalStatus {
    Pending,
    Disputed,
    Resolved,
    Finalized,
}

/// A proposed price.
#[derive(Clone, Copy, Debug, PartialEq, Eq, Structural)]
pub struct OptimisticProposal {
    pub id: u32,
    pub asset: u64,
    pub proposer: u64,
    pub price: i128,
    pub timestamp: u64,
    pub bond_amount: i128,
    pub dispute_window: u32,
    pub expires_at_ledger: u32,
    pub status: ProposalStatus,
    pub disputed: bool,
    pub resolved: bool,
    /// 0 while open, 1 when accepted, 2 when rejected.
    pub resolution: u32,
    pub disputer: Option<u64>,
}

/// Proposals, numbered from 1 in order of creation.
pub struct Optimistic {
    pub proposals: Vec<OptimisticProposal>,
    pub dispute_window: u32,
    pub min_bond: i128,
}

/// Signed external data settling a dispute: `data_hash` must be the
/// SHA-256 of the source's encoded address, the price (16 bytes,
/// little-endian) and the timestamp (8 bytes, little-endian).
pub struct ExternalDataProof {
    pub source: u64,
    /// The source's address in its canonical encoding.
    pub source_encoded: Vec<u8>,
    pub timestamp: u64,
    pub signature: Vec<u8>,
    pub data_hash: Vec<u8>,
}

/// Digest an external proof must carry for `price`.
pub open spec fn external_hash_spec(source_encoded: Seq<u8>, price: i128, timestamp: u64) -> Seq<u8> {
    sha256_digest(source_encoded + i128_le_bytes(price) + u64_le_bytes(timestamp))
}

/// History of an asset after a snapshot of `price` at `ledger`: the entry
/// is written unless compaction skips it, then the oldest entries beyond
/// `max_len` are dropped (as many as a `u32` counts).
pub open spec fn snapshot_history(h: Seq<PriceHistoryEntry>, price: i128, timestamp: u64, num_sources: u32, ledger: u32, threshold: u32, max_len: u32) -> Seq<PriceHistoryEntry> {
    let e = PriceHistoryEntry { price, timestamp, ledger, num_sources, is_interpolated: false };
    let h1 = if should_skip_spec(h, threshold, ledger, price) { h } else { upsert_spec(h, e) };
    let p = crate::history::prune_count(h1.len() as int, max_len as int, u32::MAX as int);
    h1.subrange(p, h1.len() as int)
}

impl PriceOracleContract {
    /// Aggregate published by a snapshot of `price`: its version grows when
    /// the price changes (saturating) and starts at 0.
    pub open spec fn snapshot_aggregate(&self, asset: u64, price: i128, timestamp: u64, num_sources: u32) -> AggregatePrice {
        AggregatePrice {
            price,
            timestamp,
            num_sources,
            decimals: self.config.decimals,
            is_override: false,
            version: match self.aggregate(asset) {
                Some(a) => if price != a.price { crate::aggregation::inc_sat(a.version) } else { a.version },
                None => 0,
            },
        }
    }

    /// `after` is `self` once a snapshot of `price` has been published.
    pub open spec fn snapshot_written(&self, after: &PriceOracleContract, asset: u64, price: i128, timestamp: u64, num_sources: u32, ledger: u32) -> bool {
        &&& after.aggregates@ == self.aggregates@.insert(asset, self.snapshot_aggregate(asset, price, timestamp, num_sources))
        &&& after.histories@ == self.histories@.insert(asset,
            after.histories@[asset])
        &&& after.history(asset) == snapshot_history(self.history(asset), price, timestamp, num_sources, ledger,
            self.config.compaction_threshold_bps, self.config.max_history_length)
        &&& after.config == self.config
        &&& after.sources@ == self.sources@
        &&& after.assets@ == self.assets@
        &&& after.submissions@ == self.submissions@
        &&& after.overrides@ == self.overrides@
        &&& after.tripped@ == self.tripped@
    }

    /// Publishes `price` for `asset` as its aggregate and records it in the
    /// history (see `snapshot_written`).
    pub fn write_price_snapshot(&mut self, asset: u64, price: i128, timestamp: u64, num_sources: u32, ledger: u32)
        requires
            old(self).wf(),
        ensures
            final(self).wf(),
            old(self).snapshot_written(final(self), asset, price, timestamp, num_sources, ledger),
    {
        let version = match self.aggregates.get(&asset) {
            Some(a) => if price != a.price { if a.version == u32::MAX { a.version } else { a.version + 1 } } else { a.version },
            None => 0,
        };
        let agg = AggregatePrice { price, timestamp, num_sources, decimals: self.config.decimals, is_override: false, version };
        self.aggregates.insert(asset, agg);
        let h0: Vec<PriceHistoryEntry> = match self.histories.get(&asset) {
            Some(h) => h.clone(),
            None => Vec::new(),
        };
        assert(h0@ == old(self).history(asset));
        let e = PriceHistoryEntry { price, timestamp, ledger, num_sources, is_interpolated: false };
        let skip = should_skip_on_write(&h0, self.config.compaction_threshold_bps, ledger, price);
        let h1 = if skip { h0 } else { upsert_entry(&h0, e) };
        let (h2, _p) = prune_oldest(&h1, self.config.max_history_length, u32::MAX);
        proof {
            assert forall|a: int, b: int| 0 <= a < b < h2@.len() implies h2@[a].ledger < h2@[b].ledger by {
                assert(h2@[a] == h1@[a + _p]);
                assert(h2@[b] == h1@[b + _p]);
            }
        }
        self.histories.insert(asset, h2);
    }
}

impl Optimistic {
    /// Proposal `id`, if it exists.
    pub open spec fn proposal(&self, id: u32) -> Option<OptimisticProposal> {
        if 1 <= id <= self.proposals@.len() { Some(self.proposals@[id - 1]) } else { None }
    }

    /// Proposal ids match their positions.
    pub open spec fn wf(&self) -> bool {
        forall|i: int| 0 <= i < self.proposals@.len() ==> #[trigger] self.proposals@[i].id == i + 1
    }

    /// No proposals yet, the default dispute window and minimum bond.
    pub fn new() -> (r: Optimistic)
        ensures
            r.wf(),
            r.proposals@.len() == 0,
            r.dispute_window == DEFAULT_DISPUTE_WINDOW,
            r.min_bond == DEFAULT_MIN_BOND,
    {
        Optimistic { proposals: Vec::new(), dispute_window: DEFAULT_DISPUTE_WINDOW, min_bond: DEFAULT_MIN_BOND }
    }

    /// Proposes `price` for a registered `asset` with bond `bond_amount`;
    /// returns the new proposal's id.
    pub fn propose_price(&mut self, contract: &PriceOracleContract, proposer: u64, asset: u64, price: i128, timestamp: u64, bond_amount: i128, now: LedgerInfo) -> (r: Result<u32, ErrorCode>)
        requires
            old(self).wf(),
            old(self).proposals@.len() < u32::MAX,
        ensures
            final(self).wf(),
            r matches Err(e) ==> final(self).proposals@ == old(self).proposals@ && e == (if !contract.is_asset_spec(asset) {
                ErrorCode::AssetNotRegistered
            } else if price <= 0 {
                ErrorCode::InvalidPrice
            } else if timestamp > now.timestamp + contract.config.timestamp_threshold {
                ErrorCode::InvalidTimestamp
            } else {
                ErrorCode::BondTooSmall
            }),
            r is Ok <==> contract.is_asset_spec(asset) && price > 0 && timestamp <= now.timestamp + contract.config.timestamp_threshold
                && bond_amount >= old(self).min_bond,
            r is Ok ==> r == Ok::<u32, ErrorCode>((old(self).proposals@.len() + 1) as u32)
                && final(self).proposals@ == old(self).proposals@.push(OptimisticProposal {
                    id: (old(self).proposals@.len() + 1) as u32,
                    asset,
                    proposer,
                    price,
                    timestamp,
                    bond_amount,
                    dispute_window: old(self).dispute_window,
                    expires_at_ledger: if now.sequence + old(self).dispute_window > u32::MAX { u32::MAX } else { (now.sequence + old(self).dispute_window) as u32 },
                    status: ProposalStatus::Pending,
                    disputed: false,
                    resolved: false,
                    resolution: 0,
                    disputer: None,
                }),
            final(self).dispute_window == old(self).dispute_window,
            final(self).min_bond == old(self).min_bond,
    {
        if !contract.is_asset_registered(asset) {
            return Err(ErrorCode::AssetNotRegistered);
        }
        if price <= 0 {
            return Err(ErrorCode::InvalidPrice);
        }
        if timestamp > now.timestamp.saturating_add(contract.config.timestamp_threshold) {
            return Err(ErrorCode::InvalidTimestamp);
        }
        if bond_amount < self.min_bond {
            return Err(ErrorCode::BondTooSmall);
        }
        let id = (self.proposals.len() + 1) as u32;
        let p = OptimisticProposal {
            id,
            asset,
            proposer,
            price,
            timestamp,
            bond_amount,
            dispute_window: self.dispute_window,
            expires_at_ledger: now.sequence.saturating_add(self.dispute_window),
            status: ProposalStatus::Pending,
            disputed: false,
            resolved: false,
            resolution: 0,
            disputer: None,
        };
        self.proposals.push(p);
        Ok(id)
    }

    /// Whether proposal `p` is pending past its window at `ledger` and
    /// would be finalized on access.
    pub open spec fn expired_pending(p: OptimisticProposal, ledger: u32) -> bool {
        p.status == ProposalStatus::Pending && ledger >= p.expires_at_ledger
    }

    /// Proposal `p` as finalized.
    pub open spec fn finalized(p: OptimisticProposal) -> OptimisticProposal {
        OptimisticProposal { status: ProposalStatus::Finalized, resolved: true, resolution: 1, ..p }
    }

    /// Outcome of a dispute of proposal `id` at `ledger`.
    pub open spec fn dispute_check(&self, id: u32, ledger: u32) -> Result<(), ErrorCode> {
        match self.proposal(id) {
            None => Err(ErrorCode::ProposalNotFound),
            Some(p) => {
                let q = if Self::expired_pending(p, ledger) { Self::finalized(p) } else { p };
                if q.status == ProposalStatus::Disputed {
                    Err(ErrorCode::ProposalAlreadyDisputed)
                } else if q.status == ProposalStatus::Resolved || q.status == ProposalStatus::Finalized {
                    Err(ErrorCode::ProposalAlreadyResolved)
                } else if ledger >= q.expires_at_ledger {
                    Err(ErrorCode::ProposalExpired)
                } else if q.bond_amount < self.min_bond {
                    Err(ErrorCode::BondTooSmall)
                } else {
                    Ok(())
                }
            },
        }
    }

    /// Disputes pending proposal `id` within its window. A refused dispute
    /// changes nothing.
    pub fn dispute_proposal(&mut self, disputer: u64, id: u32, now: LedgerInfo) -> (r: Result<(), ErrorCode>)
        requires
            old(self).wf(),
        ensures
            final(self).wf(),
            r == old(self).dispute_check(id, now.sequence),
            r is Err ==> final(self).proposals@ == old(self).proposals@,
            r is Ok ==> final(self).proposals@ == old(self).proposals@.update(id - 1, OptimisticProposal {
                status: ProposalStatus::Disputed,
                disputed: true,
                disputer: Some(disputer),
                ..old(self).proposals@[id - 1]
            }),
            final(self).dispute_window == old(self).dispute_window,
            final(self).min_bond == old(self).min_bond,
    {
        if id == 0 || id as usize > self.proposals.len() {
            return Err(ErrorCode::ProposalNotFound);
        }
        let p = self.proposals[(id - 1) as usize];
        let q = if p.status == ProposalStatus::Pending && now.sequence >= p.expires_at_ledger {
            OptimisticProposal { status: ProposalStatus::Finalized, resolved: true, resolution: 1, ..p }
        } else {
            p
        };
        if q.status == ProposalStatus::Disputed {
            return Err(ErrorCode::ProposalAlreadyDisputed);
        }
        if q.status == ProposalStatus::Resolved || q.status == ProposalStatus::Finalized {
            return Err(ErrorCode::ProposalAlreadyResolved);
        }
        if now.sequence >= q.expires_at_ledger {
            return Err(ErrorCode::ProposalExpired);
        }
        if q.bond_amount < self.min_bond {
            return Err(ErrorCode::BondTooSmall);
        }
        let d = OptimisticProposal { status: ProposalStatus::Disputed, disputed: true, disputer: Some(disputer), ..q };
        self.proposals.set((id - 1) as usize, d);
        Ok(())
    }

    /// Outcome of the checks on settling proposal `id` at `ledger`.
    pub open spec fn settle_check(&self, caller: u64, admin: u64, id: u32, ledger: u32) -> Result<(), ErrorCode> {
        if caller != admin {
            Err(ErrorCode::NotAuthorized)
        } else {
            match self.proposal(id) {
                None => Err(ErrorCode::ProposalNotFound),
                Some(p) => {
                    let q = if Self::expired_pending(p, ledger) { Self::finalized(p) } else { p };
                    if !q.disputed {
                        Err(ErrorCode::ProposalNotDisputed)
                    } else if q.status == ProposalStatus::Resolved || q.status == ProposalStatus::Finalized {
                        Err(ErrorCode::ProposalAlreadyResolved)
                    } else {
                        Ok(())
                    }
                },
            }
        }
    }

    fn settle_checks(&self, contract: &PriceOracleContract, caller: u64, id: u32, now: LedgerInfo) -> (r: Result<OptimisticProposal, ErrorCode>)
        requires
            self.wf(),
        ensures
            r is Err <==> self.settle_check(caller, contract.config.admin, id, now.sequence) is Err,
            r matches Err(e) ==> self.settle_check(caller, contract.config.admin, id, now.sequence) == Err::<(), ErrorCode>(e),
            r matches Ok(p) ==> p == self.proposals@[id - 1] && 1 <= id <= self.proposals@.len() && p.disputed,
    {
        if caller != contract.config.admin {
            return Err(ErrorCode::NotAuthorized);
        }
        if id == 0 || id as usize > self.proposals.len() {
            return Err(ErrorCode::ProposalNotFound);
        }
        let p = self.proposals[(id - 1) as usize];
        let q = if p.status == ProposalStatus::Pending && now.sequence >= p.expires_at_ledger {
            OptimisticProposal { status: ProposalStatus::Finalized, resolved: true, resolution: 1, ..p }
        } else {
            p
        };
        if !q.disputed {
            return Err(ErrorCode::ProposalNotDisputed);
        }
        if q.status == ProposalStatus::Resolved || q.status == ProposalStatus::Finalized {
            return Err(ErrorCode::ProposalAlreadyResolved);
        }
        assert(q == p);
        Ok(p)
    }

    /// Settles disputed proposal `id` (administrator only): accepted, its
    /// price is published; rejected, it is closed.
    pub fn resolve_dispute(&mut self, contract: &mut PriceOracleContract, caller: u64, id: u32, accept: bool, now: LedgerInfo) -> (r: Result<(), ErrorCode>)
        requires
            old(self).wf(),
            old(contract).wf(),
        ensures
            final(self).wf(),
            final(contract).wf(),
            r == old(self).settle_check(caller, old(contract).config.admin, id, now.sequence),
            r is Err ==> final(self).proposals@ == old(self).proposals@ && final(contract).same_data(old(contract))
                && final(contract).config == old(contract).config,
            r is Ok ==> ({
                let p = old(self).proposals@[id - 1];
                &&& final(self).proposals@ == old(self).proposals@.update(id - 1, OptimisticProposal {
                    status: ProposalStatus::Resolved, resolved: true, resolution: if accept { 1 } else { 2 }, ..p })
                &&& accept ==> old(contract).snapshot_written(final(contract), p.asset, p.price, p.timestamp, 1, now.sequence)
                &&& !accept ==> final(contract).same_data(old(contract)) && final(contract).config == old(contract).config
            }),
            final(self).dispute_window == old(self).dispute_window,
            final(self).min_bond == old(self).min_bond,
    {
        let p = match self.settle_checks(contract, caller, id, now) {
            Err(e) => {
                return Err(e);
            },
            Ok(p) => p,
        };
        let q = OptimisticProposal { status: ProposalStatus::Resolved, resolved: true, resolution: if accept { 1 } else { 2 }, ..p };
        if accept {
            contract.write_price_snapshot(p.asset, p.price, p.timestamp, 1, now.sequence);
        }
        self.proposals.set((id - 1) as usize, q);
        Ok(())
    }

    /// Settles disputed proposal `id` from signed external data
    /// (administrator only): the data's source must be registered, its
    /// timestamp not too far ahead, its signature not all zero and its hash
    /// that of the external price; the external price is then published.
    pub fn resolve_via_external_data(&mut self, contract: &mut PriceOracleContract, caller: u64, id: u32, external_price: i128, proof: &ExternalDataProof, now: LedgerInfo) -> (r: Result<(), ErrorCode>)
        requires
            old(self).wf(),
            old(contract).wf(),
        ensures
            final(self).wf(),
            final(contract).wf(),
            old(self).settle_check(caller, old(contract).config.admin, id, now.sequence) is Err
                ==> r == old(self).settle_check(caller, old(contract).config.admin, id, now.sequence),
            old(self).settle_check(caller, old(contract).config.admin, id, now.sequence) is Ok ==> r == (if !old(contract).is_source_spec(proof.source) {
                Err(ErrorCode::SourceNotFound)
            } else if proof.timestamp > now.timestamp + old(contract).config.timestamp_threshold {
                Err(ErrorCode::InvalidTimestamp)
            } else if forall|i: int| 0 <= i < proof.signature@.len() ==> proof.signature@[i] == 0 {
                Err(ErrorCode::InvalidExternalProof)
            } else if external_hash_spec(proof.source_encoded@, external_price, proof.timestamp) != proof.data_hash@ {
                Err(ErrorCode::InvalidExternalProof)
            } else {
                Ok::<(), ErrorCode>(())
            }),
            r is Err ==> final(self).proposals@ == old(self).proposals@ && final(contract).same_data(old(contract))
                && final(contract).config == old(contract).config,
            r is Ok ==> ({
                let p = old(self).proposals@[id - 1];
                &&& final(self).proposals@ == old(self).proposals@.update(id - 1, OptimisticProposal {
                    status: ProposalStatus::Resolved, resolved: true, resolution: 1, ..p })
                &&& old(contract).snapshot_written(final(contract), p.asset, external_price, proof.timestamp, 1, now.sequence)
            }),
            final(self).dispute_window == old(self).dispute_window,
            final(self).min_bond == old(self).min_bond,
    {
        let p = match self.settle_checks(contract, caller, id, now) {
            Err(e) => {
                return Err(e);
            },
            Ok(p) => p,
        };
        if !contract.is_source(proof.source) {
            return Err(ErrorCode::SourceNotFound);
        }
        if proof.timestamp > now.timestamp.saturating_add(contract.config.timestamp_threshold) {
            return Err(ErrorCode::InvalidTimestamp);
        }
        let mut all_zero = true;
        let mut i: usize = 0;
        while i < proof.signature.len()
            invariant
                0 <= i <= proof.signature.len(),
                all_zero == forall|j: int| 0 <= j < i ==> proof.signature@[j] == 0,
            decreases proof.signature.len() - i,
        {
            if proof.signature[i] != 0 {
                all_zero = false;
            }
            i = i + 1;
        }
        if all_zero {
            return Err(ErrorCode::InvalidExternalProof);
        }
        let mut pre: Vec<u8> = Vec::new();
        crate::commit_reveal::push_all(&mut pre, &proof.source_encoded);
        crate::commit_reveal::push_i128_le(&mut pre, external_price);
        push_le(&mut pre, proof.timestamp as u128, 8);
        proof {
            assert(Seq::new(8, |k: int| ((proof.timestamp as u128 as int / crate::crypto::pow256(k)) % 256) as u8) =~= u64_le_bytes(proof.timestamp));
            assert(pre@ =~= proof.source_encoded@ + i128_le_bytes(external_price) + u64_le_bytes(proof.timestamp));
        }
        let digest = sha256(pre.as_slice());
        let mut same = digest.len() == proof.data_hash.len();
        if same {
            let mut k: usize = 0;
            while k < 32
                invariant
                    0 <= k <= 32,
                    digest@.len() == 32,
                    proof.data_hash@.len() == 32,
                    same == forall|j: int| 0 <= j < k ==> digest@[j] == proof.data_hash@[j],
                decreases 32 - k,
            {
                if digest[k] != proof.data_hash[k] {
                    same = false;
                }
                k = k + 1;
            }
        }
        if !same {
            return Err(ErrorCode::InvalidExternalProof);
        }
        assert(digest@ =~= proof.data_hash@);
        let q = OptimisticProposal { status: ProposalStatus::Resolved, resolved: true, resolution: 1, ..p };
        contract.write_price_snapshot(p.asset, external_price, proof.timestamp, 1, now.sequence);
        self.proposals.set((id - 1) as usize, q);
        Ok(())
    }

    /// Proposal `id` as of `now`: a pending proposal past its window is
    /// finalized on the way and its price published.
    pub fn get_proposal(&mut self, contract: &mut PriceOracleContract, id: u32, now: LedgerInfo) -> (r: Option<OptimisticProposal>)
        requires
            old(self).wf(),
            old(contract).wf(),
        ensures
            final(self).wf(),
            final(contract).wf(),
            old(self).proposal(id) is None ==> r is None && final(self).proposals@ == old(self).proposals@
                && final(contract).same_data(old(contract)) && final(contract).config == old(contract).config,
            old(self).proposal(id) matches Some(p) ==> ({
                if Self::expired_pending(p, now.sequence) {
                    &&& r == Some(Self::finalized(p))
                    &&& final(self).proposals@ == old(self).proposals@.update(id - 1, Self::finalized(p))
                    &&& old(contract).snapshot_written(final(contract), p.asset, p.price, p.timestamp, 1, now.sequence)
                } else {
                    &&& r == Some(p)
                    &&& final(self).proposals@ == old(self).proposals@
                    &&& final(contract).same_data(old(contract)) && final(contract).config == old(contract).config
                }
            }),
            final(self).dispute_window == old(self).dispute_window,
            final(self).min_bond == old(self).min_bond,
    {
        if id == 0 || id as usize > self.proposals.len() {
            return None;
        }
        let p = self.proposals[(id - 1) as usize];
        if p.status == ProposalStatus::Pending && now.sequence >= p.expires_at_ledger {
            let f = OptimisticProposal { status: ProposalStatus::Finalized, resolved: true, resolution: 1, ..p };
            self.proposals.set((id - 1) as usize, f);
            contract.write_price_snapshot(p.asset, p.price, p.timestamp, 1, now.sequence);
            Some(f)
        } else {
            Some(p)
        }
    }
}


/// Proposal `p` as seen at `ledger`: finalized once pending past its window.
pub open spec fn refreshed(p: OptimisticProposal, ledger: u32) -> OptimisticProposal {
    if Optimistic::expired_pending(p, ledger) { Optimistic::finalized(p) } else { p }
}

/// Whether a proposal is still open: pending or disputed.
pub open spec fn is_active(p: OptimisticProposal) -> bool {
    p.status == ProposalStatus::Pending || p.status == ProposalStatus::Disputed
}

/// The proposals of `ps` still open at `ledger`, in order.
pub open spec fn active_list(ps: Seq<OptimisticProposal>, ledger: u32) -> Seq<OptimisticProposal>
    decreases ps.len(),
{
    if ps.len() == 0 {
        Seq::empty()
    } else {
        let rest = active_list(ps.drop_last(), ledger);
        let q = refreshed(ps.last(), ledger);
        if is_active(q) { rest.push(q) } else { rest }
    }
}

/// The proposals of `ps` pending past their window at `ledger`, in order.
pub open spec fn expired_list(ps: Seq<OptimisticProposal>, ledger: u32) -> Seq<OptimisticProposal>
    decreases ps.len(),
{
    if ps.len() == 0 {
        Seq::empty()
    } else {
        let rest = expired_list(ps.drop_last(), ledger);
        if Optimistic::expired_pending(ps.last(), ledger) { rest.push(ps.last()) } else { rest }
    }
}

/// Each state of `states` is the previous one after the snapshot of the
/// next proposal of `exp` at `ledger`.
pub open spec fn snapshot_chain(states: Seq<PriceOracleContract>, exp: Seq<OptimisticProposal>, ledger: u32) -> bool {
    &&& states.len() == exp.len() + 1
    &&& forall|k: int| 0 <= k < exp.len() ==> #[trigger] states[k].snapshot_written(&states[k + 1], exp[k].asset, exp[k].price,
        exp[k].timestamp, 1, ledger)
}

impl Optimistic {
    /// The open proposals (pending or disputed), in order of creation. On
    /// the way, every proposal pending past its window is finalized and its
    /// price published, in order of creation.
    pub fn get_active_proposals(&mut self, contract: &mut PriceOracleContract, now: LedgerInfo) -> (r: Vec<OptimisticProposal>)
        requires
            old(self).wf(),
            old(contract).wf(),
        ensures
            final(self).wf(),
            final(contract).wf(),
            r@ == active_list(old(self).proposals@, now.sequence),
            final(self).proposals@ == Seq::new(old(self).proposals@.len(), |i: int| refreshed(old(self).proposals@[i], now.sequence)),
            exists|states: Seq<PriceOracleContract>| #[trigger] snapshot_chain(states, expired_list(old(self).proposals@, now.sequence), now.sequence)
                && states[0] == *old(contract) && states.last() == *final(contract),
            final(self).dispute_window == old(self).dispute_window,
            final(self).min_bond == old(self).min_bond,
    {
        let ghost ps = self.proposals@;
        let ghost mut states: Seq<PriceOracleContract> = seq![*contract];
        let mut out: Vec<OptimisticProposal> = Vec::new();
        let n = self.proposals.len();
        let mut i: usize = 0;
        while i < n
            invariant
                n == ps.len() == self.proposals@.len(),
                0 <= i <= n,
                self.dispute_window == old(self).dispute_window,
                self.min_bond == old(self).min_bond,
                ps == old(self).proposals@,
                forall|k: int| 0 <= k < n ==> #[trigger] ps[k].id == k + 1,
                forall|k: int| 0 <= k < i ==> #[trigger] self.proposals@[k] == refreshed(ps[k], now.sequence),
                forall|k: int| i <= k < n ==> #[trigger] self.proposals@[k] == ps[k],
                contract.wf(),
                out@ == active_list(ps.subrange(0, i as int), now.sequence),
                snapshot_chain(states, expired_list(ps.subrange(0, i as int), now.sequence), now.sequence),
                states[0] == *old(contract),
                states.last() == *contract,
            decreases n - i,
        {
            proof {
                assert(ps.subrange(0, i + 1).drop_last() =~= ps.subrange(0, i as int));
                assert(ps.subrange(0, i + 1).last() == ps[i as int]);
            }
            let p = self.proposals[i];
            let ghost exp0 = expired_list(ps.subrange(0, i as int), now.sequence);
            let q = if p.status == ProposalStatus::Pending && now.sequence >= p.expires_at_ledger {
                let f = OptimisticProposal { status: ProposalStatus::Finalized, resolved: true, resolution: 1, ..p };
                self.proposals.set(i, f);
                let ghost before = *contract;
                contract.write_price_snapshot(p.asset, p.price, p.timestamp, 1, now.sequence);
                proof {
                    let s0 = states;
                    states = states.push(*contract);
                    let exp1 = exp0.push(p);
                    assert(expired_list(ps.subrange(0, i + 1), now.sequence) == exp1);
                    assert forall|k: int| 0 <= k < exp1.len() implies #[trigger] states[k].snapshot_written(&states[k + 1], exp1[k].asset, exp1[k].price,
                        exp1[k].timestamp, 1, now.sequence) by {
                        if k < exp0.len() {
                            assert(states[k] == s0[k]);
                            assert(states[k + 1] == s0[k + 1]);
                            assert(exp1[k] == exp0[k]);
                        } else {
                            assert(states[k] == before);
                        }
                    }
                }
                f
            } else {
                p
            };
            if q.status == ProposalStatus::Pending || q.status == ProposalStatus::Disputed {
                out.push(q);
            }
            i = i + 1;
        }
        proof {
            assert(ps.subrange(0, n as int) =~= ps);
            assert(self.proposals@ =~= Seq::new(ps.len(), |k: int| refreshed(ps[k], now.sequence)));
        }
        out
    }
}

} // verus!
