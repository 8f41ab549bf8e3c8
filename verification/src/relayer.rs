//! Relayers: approved addresses that submit prices on behalf of sources,
//! with per-submission fees, performance bonds that can be slashed after
//! repeated failures, accuracy-weighted rewards, and dashboard statistics.

use vstd::prelude::*;
use std::collections::HashMap;
use crate::aggregation::inc_sat;
use crate::oracle::{pair_key, pair_key_spec, PriceOracleContract};
use crate::relayer_dashboard::{RelayerDashboard, RelayerStats, sat_add_u64, sat_mul_u64};
use crate::submission::{flag_on, submitted_entry};
use crate::arith::clamp_i128;
use crate::types::{AggregatePrice, ErrorCode, LedgerInfo, PriceEntry};

verus! {

broadcast use vstd::std_specs::hash::group_hash_axioms;

/// Most legs in one relayed batch.
pub const MAX_BATCH_SIZE: usize = 25;
/// Default share of a bond slashed, in percent.
pub const DEFAULT_RELAYER_SLASH_PERCENT: u32 = 20;
/// Default number of failures after which a bond may be slashed.
pub const DEFAULT_RELAYER_FAILURE_THRESHOLD: u32 = 3;

/// An approved relayer.
#[derive(Clone, Debug)]
pub struct RelayerInfo {
    pub name: String,
    pub approved_at_ledger: u32,
}

/// A source's authorization for a relayer, valid up to a ledger.
#[derive(Clone, Copy, Debug, PartialEq, Eq, Structural)]
pub struct RelayerDelegation {
    pub source: u64,
    pub relayer: u64,
    pub nonce: u64,
    pub expiration_ledger: u32,
}

/// One leg of a relayed batch.
#[derive(Clone, Copy, Debug, PartialEq, Eq, Structural)]
pub struct RelayedSubmission {
    pub source: u64,
    pub asset: u64,
    pub price: i128,
    pub timestamp: u64,
    pub priority_fee: u128,
}

/// Relayer registry, fees, bonds, rewards and statistics.
pub struct Relayers {
    pub admin: u64,
    pub approved: HashMap<u64, RelayerInfo>,
    /// Every relayer ever approved, in order of approval.
    pub registry: Vec<u64>,
    /// Delegations per `pair_key(source, relayer)`.
    pub delegations: HashMap<u128, RelayerDelegation>,
    /// Latest delegation nonce per source.
    pub delegation_nonces: HashMap<u64, u64>,
    pub fee_per_submission: i128,
    pub fee_balances: HashMap<u64, i128>,
    pub submission_counts: HashMap<u64, u64>,
    pub bond_amount: i128,
    pub bonds: HashMap<u64, i128>,
    pub slash_percent: u32,
    pub failure_threshold: u32,
    pub failures: HashMap<u64, u32>,
    pub reward_rate: i128,
    pub rewards: HashMap<u64, i128>,
    pub treasury: i128,
    pub stats: RelayerStats,
}

/// Value of `m` at `k`, 0 when absent.
pub open spec fn get_i128(m: Map<u64, i128>, k: u64) -> i128 {
    if m.contains_key(k) { m[k] } else { 0 }
}

/// Value of `m` at `k`, 0 when absent.
pub open spec fn get_u64(m: Map<u64, u64>, k: u64) -> u64 {
    if m.contains_key(k) { m[k] } else { 0 }
}

/// Value of `m` at `k`, 0 when absent.
pub open spec fn get_u32(m: Map<u64, u32>, k: u64) -> u32 {
    if m.contains_key(k) { m[k] } else { 0 }
}

/// A priority fee as `i128`, saturating.
pub open spec fn fee_as_i128(fee: u128) -> i128 {
    if fee > i128::MAX { i128::MAX } else { fee as i128 }
}

/// Reward for a relayer with `count` submissions and `failures` failures at
/// reward rate `rate`: the rate scaled by its accuracy in basis points.
pub open spec fn reward_spec(rate: i128, count: u64, failures: u32) -> i128 {
    let attempts = sat_add_u64(count, failures as u64);
    let denom: u64 = if attempts == 0 { 1 } else { attempts };
    let accuracy = sat_mul_u64(count, 10_000) / denom;
    crate::arith::div_trunc(clamp_i128(rate * accuracy), 10_000) as i128
}

/// Amount slashed from a positive bond `deposited` at `pct` percent: the
/// share, at least 1 and at most the whole bond.
pub open spec fn slash_amount_spec(deposited: i128, pct: u32) -> i128 {
    let share = deposited * pct / 100;
    if share < 1 { 1 } else if share > deposited { deposited } else { share as i128 }
}

impl Relayers {
    pub open spec fn is_relayer_spec(&self, relayer: u64) -> bool {
        self.approved@.contains_key(relayer)
    }

    pub open spec fn bond_of(&self, relayer: u64) -> i128 {
        get_i128(self.bonds@, relayer)
    }

    pub open spec fn failures_of(&self, relayer: u64) -> u32 {
        get_u32(self.failures@, relayer)
    }

    pub open spec fn count_of(&self, relayer: u64) -> u64 {
        get_u64(self.submission_counts@, relayer)
    }

    /// Whether `source` has delegated to `relayer` up to a ledger not before `ledger`.
    pub open spec fn delegation_valid(&self, source: u64, relayer: u64, ledger: u32) -> bool {
        let k = pair_key_spec(source, relayer);
        self.delegations@.contains_key(k) && ledger <= self.delegations@[k].expiration_ledger
    }

    /// Bonds are never negative and the slash share is a percentage.
    pub open spec fn wf(&self) -> bool {
        &&& forall|r: u64| #[trigger] self.bonds@.contains_key(r) ==> self.bonds@[r] >= 0
        &&& self.slash_percent <= 100
    }

    /// Everything but the statistics is unchanged.
    pub open spec fn same_accounts(&self, other: &Relayers) -> bool {
        &&& self.admin == other.admin
        &&& self.approved@ == other.approved@
        &&& self.registry@ == other.registry@
        &&& self.delegations@ == other.delegations@
        &&& self.delegation_nonces@ == other.delegation_nonces@
        &&& self.fee_per_submission == other.fee_per_submission
        &&& self.fee_balances@ == other.fee_balances@
        &&& self.submission_counts@ == other.submission_counts@
        &&& self.bond_amount == other.bond_amount
        &&& self.bonds@ == other.bonds@
        &&& self.slash_percent == other.slash_percent
        &&& self.failure_threshold == other.failure_threshold
        &&& self.failures@ == other.failures@
        &&& self.reward_rate == other.reward_rate
        &&& self.rewards@ == other.rewards@
        &&& self.treasury == other.treasury
    }

    /// Everything but the rewards and the statistics is unchanged.
    pub open spec fn same_accounts_but_rewards(&self, other: &Relayers) -> bool {
        &&& self.admin == other.admin
        &&& self.approved@ == other.approved@
        &&& self.registry@ == other.registry@
        &&& self.delegations@ == other.delegations@
        &&& self.delegation_nonces@ == other.delegation_nonces@
        &&& self.fee_per_submission == other.fee_per_submission
        &&& self.fee_balances@ == other.fee_balances@
        &&& self.submission_counts@ == other.submission_counts@
        &&& self.bond_amount == other.bond_amount
        &&& self.bonds@ == other.bonds@
        &&& self.slash_percent == other.slash_percent
        &&& self.failure_threshold == other.failure_threshold
        &&& self.failures@ == other.failures@
        &&& self.reward_rate == other.reward_rate
        &&& self.treasury == other.treasury
    }

    /// Nothing is unchanged but the statistics' view.
    pub open spec fn unchanged(&self, other: &Relayers) -> bool {
        self.same_accounts(other) && self.stats.metrics@ == other.stats.metrics@
    }

    /// Relayers administered by `admin`, with the default slash percentage
    /// and failure threshold and nothing else configured.
    pub fn new(admin: u64) -> (r: Relayers)
        ensures
            r.wf(),
            r.admin == admin,
            r.approved@.len() == 0,
            r.registry@.len() == 0,
            r.slash_percent == DEFAULT_RELAYER_SLASH_PERCENT,
            r.failure_threshold == DEFAULT_RELAYER_FAILURE_THRESHOLD,
            r.bond_amount == 0,
            r.fee_per_submission == 0,
            r.reward_rate == 0,
            r.treasury == 0,
    {
        Relayers {
            admin,
            approved: HashMap::new(),
            registry: Vec::new(),
            delegations: HashMap::new(),
            delegation_nonces: HashMap::new(),
            fee_per_submission: 0,
            fee_balances: HashMap::new(),
            submission_counts: HashMap::new(),
            bond_amount: 0,
            bonds: HashMap::new(),
            slash_percent: DEFAULT_RELAYER_SLASH_PERCENT,
            failure_threshold: DEFAULT_RELAYER_FAILURE_THRESHOLD,
            failures: HashMap::new(),
            reward_rate: 0,
            rewards: HashMap::new(),
            treasury: 0,
            stats: RelayerStats::new(),
        }
    }

    /// Approves `relayer` (administrator only); it joins the registry once.
    pub fn add_relayer(&mut self, caller: u64, relayer: u64, name: String, now: LedgerInfo) -> (r: Result<(), ErrorCode>)
        requires
            old(self).wf(),
        ensures
            final(self).wf(),
            r == (if caller != old(self).admin {
                Err(ErrorCode::NotAuthorized)
            } else if old(self).is_relayer_spec(relayer) {
                Err(ErrorCode::RelayerAlreadyExists)
            } else {
                Ok::<(), ErrorCode>(())
            }),
            r is Err ==> final(self).unchanged(old(self)),
            r is Ok ==> final(self).approved@ == old(self).approved@.insert(relayer, RelayerInfo { name, approved_at_ledger: now.sequence })
                && final(self).registry@ == (if old(self).registry@.contains(relayer) { old(self).registry@ } else { old(self).registry@.push(relayer) }),
    {
        if caller != self.admin {
            return Err(ErrorCode::NotAuthorized);
        }
        if self.approved.contains_key(&relayer) {
            return Err(ErrorCode::RelayerAlreadyExists);
        }
        self.approved.insert(relayer, RelayerInfo { name, approved_at_ledger: now.sequence });
        if !crate::admin::contains_u64(&self.registry, relayer) {
            self.registry.push(relayer);
        }
        Ok(())
    }

    /// Revokes `relayer` (administrator only); it stays in the registry.
    pub fn remove_relayer(&mut self, caller: u64, relayer: u64) -> (r: Result<(), ErrorCode>)
        requires
            old(self).wf(),
        ensures
            final(self).wf(),
            r == (if caller != old(self).admin {
                Err(ErrorCode::NotAuthorized)
            } else if !old(self).is_relayer_spec(relayer) {
                Err(ErrorCode::RelayerNotAuthorized)
            } else {
                Ok::<(), ErrorCode>(())
            }),
            r is Err ==> final(self).unchanged(old(self)),
            r is Ok ==> final(self).approved@ == old(self).approved@.remove(relayer) && final(self).registry@ == old(self).registry@,
    {
        if caller != self.admin {
            return Err(ErrorCode::NotAuthorized);
        }
        if !self.approved.contains_key(&relayer) {
            return Err(ErrorCode::RelayerNotAuthorized);
        }
        self.approved.remove(&relayer);
        Ok(())
    }

    /// Whether `relayer` is approved.
    pub fn is_relayer(&self, relayer: u64) -> (r: bool)
        ensures
            r == self.is_relayer_spec(relayer),
    {
        self.approved.contains_key(&relayer)
    }

    /// The approval ledger of `relayer`, if approved.
    pub fn approved_at(&self, relayer: u64) -> (r: Option<u32>)
        ensures
            r == (if self.is_relayer_spec(relayer) { Some(self.approved@[relayer].approved_at_ledger) } else { None }),
    {
        match self.approved.get(&relayer) {
            Some(info) => Some(info.approved_at_ledger),
            None => None,
        }
    }

    /// The delegation of `source` to `relayer`, if any.
    pub fn get_relayer_delegation(&self, source: u64, relayer: u64) -> (r: Option<RelayerDelegation>)
        ensures
            r == (if self.delegations@.contains_key(pair_key_spec(source, relayer)) {
                Some(self.delegations@[pair_key_spec(source, relayer)])
            } else {
                None
            }),
    {
        match self.delegations.get(&pair_key(source, relayer)) {
            Some(d) => Some(*d),
            None => None,
        }
    }

    /// Whether `source` has a delegation to `relayer` valid at `ledger`.
    pub fn has_valid_relayer_delegation(&self, source: u64, relayer: u64, ledger: u32) -> (r: bool)
        ensures
            r == self.delegation_valid(source, relayer, ledger),
    {
        match self.delegations.get(&pair_key(source, relayer)) {
            Some(d) => ledger <= d.expiration_ledger,
            None => false,
        }
    }

    /// Bond posted by `relayer`.
    pub fn get_relayer_bond_balance(&self, relayer: u64) -> (r: i128)
        ensures
            r == self.bond_of(relayer),
    {
        match self.bonds.get(&relayer) {
            Some(b) => *b,
            None => 0,
        }
    }

    /// Failures recorded against `relayer` since its last slash.
    pub fn get_relayer_failure_count(&self, relayer: u64) -> (r: u32)
        ensures
            r == self.failures_of(relayer),
    {
        match self.failures.get(&relayer) {
            Some(c) => *c,
            None => 0,
        }
    }

    /// Successful relayed submissions of `relayer`.
    pub fn get_relayer_submission_count(&self, relayer: u64) -> (r: u64)
        ensures
            r == self.count_of(relayer),
    {
        match self.submission_counts.get(&relayer) {
            Some(c) => *c,
            None => 0,
        }
    }

    /// Fees owed to `relayer`.
    pub fn get_relayer_fee_balance(&self, relayer: u64) -> (r: i128)
        ensures
            r == get_i128(self.fee_balances@, relayer),
    {
        match self.fee_balances.get(&relayer) {
            Some(c) => *c,
            None => 0,
        }
    }

    /// Rewards owed to `relayer`.
    pub fn get_relayer_reward_balance(&self, relayer: u64) -> (r: i128)
        ensures
            r == get_i128(self.rewards@, relayer),
    {
        match self.rewards.get(&relayer) {
            Some(c) => *c,
            None => 0,
        }
    }

    /// Outcome of the checks on one relayed price.
    pub open spec fn leg_check(&self, contract: &PriceOracleContract, relayer: u64, source: u64, asset: u64, price: i128, timestamp: u64, now: LedgerInfo) -> Result<(), ErrorCode> {
        if !self.is_relayer_spec(relayer) && !self.delegation_valid(source, relayer, now.sequence) {
            Err(ErrorCode::RelayerNotAuthorized)
        } else if self.bond_amount > 0 && self.bond_of(relayer) < self.bond_amount {
            Err(ErrorCode::RelayerBondInsufficient)
        } else if !contract.is_source_spec(source) {
            Err(ErrorCode::SourceNotFound)
        } else if !contract.is_asset_spec(asset) {
            Err(ErrorCode::AssetNotRegistered)
        } else if price <= 0 {
            Err(ErrorCode::InvalidPrice)
        } else if price < contract.bounds_of(asset).min_price {
            Err(ErrorCode::PriceBelowMinimum)
        } else if timestamp > now.timestamp + contract.config.timestamp_threshold {
            Err(ErrorCode::InvalidTimestamp)
        } else {
            Ok(())
        }
    }

    /// `(after, after_contract)` follow from `(self, contract)` by a relayed
    /// price with outcome `r`.
    pub open spec fn leg_step(&self, contract: &PriceOracleContract, after: &Relayers, after_contract: &PriceOracleContract,
        relayer: u64, source: u64, asset: u64, price: i128, timestamp: u64, now: LedgerInfo, r: Result<bool, ErrorCode>) -> bool {
        match self.leg_check(contract, relayer, source, asset, price, timestamp, now) {
            Err(e) => r == Err::<bool, ErrorCode>(e) && after.unchanged(self)
                && after_contract.config == contract.config && after_contract.same_data(contract),
            Ok(()) => if flag_on(contract.tripped@, asset) {
                r == Ok::<bool, ErrorCode>(false) && after.unchanged(self)
                    && after_contract.config == contract.config && after_contract.same_data(contract)
            } else {
                let entry = submitted_entry(price, timestamp, source, contract.config.decimals, now.sequence, now.timestamp, None);
                let subs = contract.submissions@.insert(pair_key_spec(asset, source), entry);
                &&& r == Ok::<bool, ErrorCode>(true)
                &&& after_contract.submissions@ == subs
                &&& after_contract.total_submissions == inc_sat(contract.total_submissions)
                &&& after_contract.source_submission_counts@ == contract.source_submission_counts@.insert(source,
                    inc_sat(contract.submission_count(source)))
                &&& exists|agg: Option<AggregatePrice>| #[trigger] contract.aggregation_outcome(subs, after_contract, asset, now.sequence, agg)
                &&& after_contract.same_settings(contract)
                &&& after_contract.last_submission@ == contract.last_submission@
                &&& after_contract.nonces@ == contract.nonces@
                &&& after.same_accounts(self)
                &&& self.stats.recorded(&after.stats, relayer, asset, timestamp, now.timestamp)
            },
        }
    }

    /// Checks and stores one relayed price like a direct submission (the
    /// asset is then re-aggregated) and records the relayer's statistics.
    /// Returns `false` when the asset's circuit breaker has tripped and the
    /// price is dropped.
    pub fn process_relayed_leg(&mut self, contract: &mut PriceOracleContract, relayer: u64, source: u64, asset: u64, price: i128, timestamp: u64, now: LedgerInfo) -> (r: Result<bool, ErrorCode>)
        requires
            old(self).wf(),
            old(contract).wf(),
            old(contract).sources@.len() <= u32::MAX,
        ensures
            final(self).wf(),
            final(contract).wf(),
            old(self).leg_step(old(contract), final(self), final(contract), relayer, source, asset, price, timestamp, now, r),
    {
        if !self.is_relayer(relayer) && !self.has_valid_relayer_delegation(source, relayer, now.sequence) {
            return Err(ErrorCode::RelayerNotAuthorized);
        }
        if self.bond_amount > 0 && self.get_relayer_bond_balance(relayer) < self.bond_amount {
            return Err(ErrorCode::RelayerBondInsufficient);
        }
        if !contract.is_source(source) {
            return Err(ErrorCode::SourceNotFound);
        }
        if !contract.is_asset_registered(asset) {
            return Err(ErrorCode::AssetNotRegistered);
        }
        if price <= 0 {
            return Err(ErrorCode::InvalidPrice);
        }
        if price < contract.get_price_bounds(asset).min_price {
            return Err(ErrorCode::PriceBelowMinimum);
        }
        if timestamp > now.timestamp.saturating_add(contract.config.timestamp_threshold) {
            return Err(ErrorCode::InvalidTimestamp);
        }
        if contract.is_circuit_breaker_tripped(asset) {
            return Ok(false);
        }
        let entry = PriceEntry {
            price,
            timestamp,
            source,
            decimals: contract.config.decimals,
            last_updated: now.sequence,
            ledger_timestamp: now.timestamp,
            volume: None,
        };
        contract.record_submission(asset, source, entry);
        let ghost mid = *contract;
        let agg = contract.aggregate_asset(asset, now.sequence);
        proof {
            assert(mid.aggregation_entries(asset, now.sequence) == old(contract).entries_with(mid.submissions@, asset, now.sequence));
            assert(mid.aggregation_overdue(asset, now.sequence) == old(contract).aggregation_overdue(asset, now.sequence));
            assert(old(contract).aggregation_outcome(mid.submissions@, contract, asset, now.sequence, agg));
        }
        self.stats.record_relayer_submission_stats(relayer, asset, timestamp, now.timestamp);
        Ok(true)
    }

    /// `after` is `self` once a successful submission by `relayer` with
    /// `priority_fee` has been counted: the count grows by one, the flat fee
    /// plus the priority fee is credited when positive, and the reward for the
    /// new count is accrued when the reward rate is positive.
    pub open spec fn accrued(&self, after: &Relayers, relayer: u64, priority_fee: u128) -> bool {
        let count = sat_add_u64(self.count_of(relayer), 1);
        let fee = clamp_i128(self.fee_per_submission + fee_as_i128(priority_fee)) as i128;
        let reward = reward_spec(self.reward_rate, count, self.failures_of(relayer));
        &&& after.submission_counts@ == self.submission_counts@.insert(relayer, count)
        &&& after.fee_balances@ == if fee > 0 {
            self.fee_balances@.insert(relayer, clamp_i128(get_i128(self.fee_balances@, relayer) + fee) as i128)
        } else {
            self.fee_balances@
        }
        &&& after.rewards@ == if self.reward_rate > 0 && reward > 0 {
            self.rewards@.insert(relayer, clamp_i128(get_i128(self.rewards@, relayer) + reward) as i128)
        } else {
            self.rewards@
        }
        &&& after.admin == self.admin
        &&& after.approved@ == self.approved@
        &&& after.registry@ == self.registry@
        &&& after.delegations@ == self.delegations@
        &&& after.delegation_nonces@ == self.delegation_nonces@
        &&& after.fee_per_submission == self.fee_per_submission
        &&& after.bond_amount == self.bond_amount
        &&& after.bonds@ == self.bonds@
        &&& after.slash_percent == self.slash_percent
        &&& after.failure_threshold == self.failure_threshold
        &&& after.failures@ == self.failures@
        &&& after.reward_rate == self.reward_rate
        &&& after.treasury == self.treasury
        &&& after.stats.metrics@ == self.stats.metrics@
    }

    /// Counts a successful submission of `relayer` (see `accrued`).
    pub fn accrue_relayer_submission_metrics(&mut self, relayer: u64, priority_fee: u128)
        requires
            old(self).wf(),
        ensures
            final(self).wf(),
            old(self).accrued(final(self), relayer, priority_fee),
    {
        let count = self.get_relayer_submission_count(relayer).saturating_add(1);
        self.submission_counts.insert(relayer, count);
        let pf: i128 = if priority_fee > i128::MAX as u128 { i128::MAX } else { priority_fee as i128 };
        let fee = crate::arith::sat_add(self.fee_per_submission, pf);
        if fee > 0 {
            let bal = self.get_relayer_fee_balance(relayer);
            self.fee_balances.insert(relayer, crate::arith::sat_add(bal, fee));
        }
        self.accrue_relayer_reward(relayer, count);
    }

    /// Credits `relayer` with its reward for `total_submissions`
    /// submissions when the reward rate and the reward are positive.
    pub fn accrue_relayer_reward(&mut self, relayer: u64, total_submissions: u64)
        requires
            old(self).wf(),
        ensures
            final(self).wf(),
            final(self).rewards@ == (if old(self).reward_rate > 0 && reward_spec(old(self).reward_rate, total_submissions, old(self).failures_of(relayer)) > 0 {
                old(self).rewards@.insert(relayer, clamp_i128(get_i128(old(self).rewards@, relayer)
                    + reward_spec(old(self).reward_rate, total_submissions, old(self).failures_of(relayer))) as i128)
            } else {
                old(self).rewards@
            }),
            final(self).same_accounts_but_rewards(old(self)),
            final(self).stats.metrics@ == old(self).stats.metrics@,
    {
        let rate = self.reward_rate;
        if rate > 0 {
            let failures = self.get_relayer_failure_count(relayer) as u64;
            let attempts = total_submissions.saturating_add(failures);
            let denom: u64 = if attempts == 0 { 1 } else { attempts };
            let scaled: u64 = match total_submissions.checked_mul(10_000) {
                Some(v) => v,
                None => u64::MAX,
            };
            let accuracy = scaled / denom;
            let reward = crate::arith::sat_mul(rate, accuracy as i128) / 10_000;
            if reward > 0 {
                let bal = self.get_relayer_reward_balance(relayer);
                self.rewards.insert(relayer, crate::arith::sat_add(bal, reward));
            }
        }
    }

    /// A relayed price (see `process_relayed_leg`), counted for the relayer
    /// when stored. Refused while the oracle is paused.
    pub fn submit_price_relayed(&mut self, contract: &mut PriceOracleContract, relayer: u64, source: u64, asset: u64, price: i128, timestamp: u64, now: LedgerInfo) -> (r: Result<(), ErrorCode>)
        requires
            old(self).wf(),
            old(contract).wf(),
            old(contract).sources@.len() <= u32::MAX,
        ensures
            final(self).wf(),
            final(contract).wf(),
            old(contract).config.paused ==> r == Err::<(), ErrorCode>(ErrorCode::ContractPaused)
                && final(self).unchanged(old(self)) && final(contract).config == old(contract).config && final(contract).same_data(old(contract)),
            !old(contract).config.paused ==> exists|mid: Relayers, lr: Result<bool, ErrorCode>| {
                &&& #[trigger] old(self).leg_step(old(contract), &mid, final(contract), relayer, source, asset, price, timestamp, now, lr)
                &&& (lr matches Err(e) ==> r == Err::<(), ErrorCode>(e) && *final(self) == mid)
                &&& (lr == Ok::<bool, ErrorCode>(false) ==> r is Ok && *final(self) == mid)
                &&& (lr == Ok::<bool, ErrorCode>(true) ==> r is Ok && mid.accrued(final(self), relayer, 0))
            },
    {
        if contract.config.paused {
            return Err(ErrorCode::ContractPaused);
        }
        let res = self.process_relayed_leg(contract, relayer, source, asset, price, timestamp, now);
        let ghost mid = *self;
        match res {
            Err(e) => {
                assert(old(self).leg_step(old(contract), &mid, contract, relayer, source, asset, price, timestamp, now,
                    Err::<bool, ErrorCode>(e)));
                Err(e)
            },
            Ok(stored) => {
                if stored {
                    self.accrue_relayer_submission_metrics(relayer, 0);
                }
                assert(old(self).leg_step(old(contract), &mid, contract, relayer, source, asset, price, timestamp, now,
                    Ok::<bool, ErrorCode>(stored)));
                Ok(())
            },
        }
    }
}

impl Relayers {
    /// Outcome of a challenge of a relayed price of `source` for `asset` by
    /// `relayer`.
    pub open spec fn challenge_check(&self, contract: &PriceOracleContract, relayer: u64, source: u64, asset: u64, proof_len: nat, now: LedgerInfo) -> ErrorCode {
        if !contract.is_source_spec(source) {
            ErrorCode::SourceNotFound
        } else if !contract.is_asset_spec(asset) {
            ErrorCode::AssetNotRegistered
        } else if self.is_relayer_spec(relayer) || self.delegation_valid(source, relayer, now.sequence) {
            ErrorCode::NotAuthorized
        } else if proof_len == 0 {
            ErrorCode::InvalidProof
        } else if self.bond_of(relayer) <= 0 {
            ErrorCode::InsufficientBond
        } else {
            ErrorCode::RelayerNotAuthorized
        }
    }

    /// Challenges a relayed price as unauthorized. A challenge only proceeds
    /// against a relayer that is neither approved nor delegated to; the slash
    /// it computes ends by recording a failure, which only an approved
    /// relayer can have, so every challenge is refused and nothing changes:
    /// with `RelayerNotAuthorized` when all earlier checks pass.
    pub fn challenge_relayed_submission(&self, contract: &PriceOracleContract, relayer: u64, source: u64, asset: u64, proof: &Vec<u8>, now: LedgerInfo) -> (r: Result<(), ErrorCode>)
        requires
            self.wf(),
        ensures
            r == Err::<(), ErrorCode>(self.challenge_check(contract, relayer, source, asset, proof@.len(), now)),
    {
        if !contract.is_source(source) {
            return Err(ErrorCode::SourceNotFound);
        }
        if !contract.is_asset_registered(asset) {
            return Err(ErrorCode::AssetNotRegistered);
        }
        if self.is_relayer(relayer) || self.has_valid_relayer_delegation(source, relayer, now.sequence) {
            return Err(ErrorCode::NotAuthorized);
        }
        if proof.len() == 0 {
            return Err(ErrorCode::InvalidProof);
        }
        if self.get_relayer_bond_balance(relayer) <= 0 {
            return Err(ErrorCode::InsufficientBond);
        }
        Err(ErrorCode::RelayerNotAuthorized)
    }

    /// Records a failure against approved `relayer` (administrator only).
    pub fn record_relayer_failure(&mut self, caller: u64, relayer: u64) -> (r: Result<(), ErrorCode>)
        requires
            old(self).wf(),
        ensures
            final(self).wf(),
            r == (if caller != old(self).admin {
                Err(ErrorCode::NotAuthorized)
            } else if !old(self).is_relayer_spec(relayer) {
                Err(ErrorCode::RelayerNotAuthorized)
            } else {
                Ok::<(), ErrorCode>(())
            }),
            r is Err ==> final(self).unchanged(old(self)),
            r is Ok ==> final(self).failures@ == old(self).failures@.insert(relayer, inc_sat(old(self).failures_of(relayer)))
                && final(self).bonds@ == old(self).bonds@ && final(self).treasury == old(self).treasury,
    {
        if caller != self.admin {
            return Err(ErrorCode::NotAuthorized);
        }
        if !self.is_relayer(relayer) {
            return Err(ErrorCode::RelayerNotAuthorized);
        }
        let c = self.get_relayer_failure_count(relayer);
        self.failures.insert(relayer, if c == u32::MAX { c } else { c + 1 });
        Ok(())
    }

    /// Slashes the bond of `relayer` (administrator only) once its failures
    /// reach the threshold, or regardless when `force`: the slashed share
    /// (at least 1, at most the bond) goes to the treasury and the failure
    /// count restarts. A relayer without a bond is left as it is.
    pub fn slash_relayer(&mut self, caller: u64, relayer: u64, force: bool) -> (r: Result<(), ErrorCode>)
        requires
            old(self).wf(),
            old(self).bond_of(relayer) * 100 <= i128::MAX,
        ensures
            final(self).wf(),
            r == (if caller != old(self).admin {
                Err(ErrorCode::NotAuthorized)
            } else if !force && old(self).failures_of(relayer) < old(self).failure_threshold {
                Err(ErrorCode::RelayerFailureThresholdNotReached)
            } else {
                Ok::<(), ErrorCode>(())
            }),
            r is Err || old(self).bond_of(relayer) <= 0 ==> final(self).unchanged(old(self)),
            r is Ok && old(self).bond_of(relayer) > 0 ==> ({
                let slash = slash_amount_spec(old(self).bond_of(relayer), old(self).slash_percent);
                &&& final(self).bonds@ == old(self).bonds@.insert(relayer, (old(self).bond_of(relayer) - slash) as i128)
                &&& final(self).treasury == clamp_i128(old(self).treasury + slash)
                &&& final(self).failures@ == old(self).failures@.insert(relayer, 0)
                &&& final(self).approved@ == old(self).approved@
                &&& final(self).rewards@ == old(self).rewards@
                &&& final(self).fee_balances@ == old(self).fee_balances@
            }),
    {
        if caller != self.admin {
            return Err(ErrorCode::NotAuthorized);
        }
        if !force && self.get_relayer_failure_count(relayer) < self.failure_threshold {
            return Err(ErrorCode::RelayerFailureThresholdNotReached);
        }
        let deposited = self.get_relayer_bond_balance(relayer);
        if deposited <= 0 {
            return Ok(());
        }
        let pct = self.slash_percent as i128;
        assert(deposited * pct <= deposited * 100) by (nonlinear_arith)
            requires deposited > 0, pct <= 100;
        let share = deposited * pct / 100;
        assert(share <= deposited) by (nonlinear_arith)
            requires share == deposited * pct / 100, deposited > 0, 0 <= pct <= 100;
        let slash = if share < 1 { 1 } else if share > deposited { deposited } else { share };
        self.bonds.insert(relayer, deposited - slash);
        self.treasury = crate::arith::sat_add(self.treasury, slash);
        self.failures.insert(relayer, 0);
        Ok(())
    }

    /// Tops the bond of approved `relayer` up to the required amount and
    /// returns what it must transfer (0 when no bond is required or it is
    /// already posted). A top-up needs a configured stake token.
    pub fn deposit_relayer_bond(&mut self, relayer: u64, token_configured: bool) -> (r: Result<i128, ErrorCode>)
        requires
            old(self).wf(),
        ensures
            final(self).wf(),
            !old(self).is_relayer_spec(relayer) ==> r == Err::<i128, ErrorCode>(ErrorCode::RelayerNotAuthorized),
            old(self).is_relayer_spec(relayer) && (old(self).bond_amount <= 0 || old(self).bond_of(relayer) >= old(self).bond_amount)
                ==> r == Ok::<i128, ErrorCode>(0),
            old(self).is_relayer_spec(relayer) && old(self).bond_amount > 0 && old(self).bond_of(relayer) < old(self).bond_amount && !token_configured
                ==> r == Err::<i128, ErrorCode>(ErrorCode::StakeTokenNotConfigured),
            old(self).is_relayer_spec(relayer) && old(self).bond_amount > 0 && old(self).bond_of(relayer) < old(self).bond_amount && token_configured
                ==> r == Ok::<i128, ErrorCode>((old(self).bond_amount - old(self).bond_of(relayer)) as i128)
                    && final(self).bonds@ == old(self).bonds@.insert(relayer, old(self).bond_amount),
            !(old(self).is_relayer_spec(relayer) && old(self).bond_amount > 0 && old(self).bond_of(relayer) < old(self).bond_amount && token_configured)
                ==> final(self).unchanged(old(self)),
            final(self).approved@ == old(self).approved@,
            final(self).treasury == old(self).treasury,
    {
        if !self.is_relayer(relayer) {
            return Err(ErrorCode::RelayerNotAuthorized);
        }
        let required = self.bond_amount;
        if required <= 0 {
            return Ok(0);
        }
        let current = self.get_relayer_bond_balance(relayer);
        if current >= required {
            return Ok(0);
        }
        if !token_configured {
            return Err(ErrorCode::StakeTokenNotConfigured);
        }
        let amount = required - current;
        self.bonds.insert(relayer, required);
        Ok(amount)
    }

    /// Releases the whole bond of `relayer` and returns the amount to
    /// transfer back (0 without a bond).
    pub fn withdraw_relayer_bond(&mut self, relayer: u64, token_configured: bool) -> (r: Result<i128, ErrorCode>)
        requires
            old(self).wf(),
        ensures
            final(self).wf(),
            old(self).bond_of(relayer) <= 0 ==> r == Ok::<i128, ErrorCode>(0) && final(self).unchanged(old(self)),
            old(self).bond_of(relayer) > 0 && !token_configured ==> r == Err::<i128, ErrorCode>(ErrorCode::StakeTokenNotConfigured)
                && final(self).unchanged(old(self)),
            old(self).bond_of(relayer) > 0 && token_configured ==> r == Ok::<i128, ErrorCode>(old(self).bond_of(relayer))
                && final(self).bonds@ == old(self).bonds@.insert(relayer, 0),
            final(self).approved@ == old(self).approved@,
            final(self).treasury == old(self).treasury,
    {
        let deposited = self.get_relayer_bond_balance(relayer);
        if deposited <= 0 {
            return Ok(0);
        }
        if !token_configured {
            return Err(ErrorCode::StakeTokenNotConfigured);
        }
        self.bonds.insert(relayer, 0);
        Ok(deposited)
    }

    /// Sets the bond each relayer must post (administrator only).
    pub fn set_relayer_bond_amount(&mut self, caller: u64, amount: i128) -> (r: Result<(), ErrorCode>)
        ensures
            caller != old(self).admin ==> r == Err::<(), ErrorCode>(ErrorCode::NotAuthorized) && final(self).bond_amount == old(self).bond_amount,
            caller == old(self).admin ==> r is Ok && final(self).bond_amount == amount,
            final(self).bonds@ == old(self).bonds@,
            final(self).slash_percent == old(self).slash_percent,
            final(self).admin == old(self).admin,
    {
        if caller != self.admin {
            return Err(ErrorCode::NotAuthorized);
        }
        self.bond_amount = amount;
        Ok(())
    }

    /// Sets the slashed share of a bond in percent (administrator only; at
    /// most 100).
    pub fn set_relayer_slash_percent(&mut self, caller: u64, percent: u32) -> (r: Result<(), ErrorCode>)
        requires
            old(self).wf(),
        ensures
            final(self).wf(),
            r == (if caller != old(self).admin {
                Err(ErrorCode::NotAuthorized)
            } else if percent > 100 {
                Err(ErrorCode::InvalidConfiguration)
            } else {
                Ok::<(), ErrorCode>(())
            }),
            r is Ok ==> final(self).slash_percent == percent,
            r is Err ==> final(self).slash_percent == old(self).slash_percent,
            final(self).bonds@ == old(self).bonds@,
            final(self).admin == old(self).admin,
    {
        if caller != self.admin {
            return Err(ErrorCode::NotAuthorized);
        }
        if percent > 100 {
            return Err(ErrorCode::InvalidConfiguration);
        }
        self.slash_percent = percent;
        Ok(())
    }

    /// Sets the failure count that allows a slash (administrator only).
    pub fn set_relayer_failure_threshold(&mut self, caller: u64, threshold: u32) -> (r: Result<(), ErrorCode>)
        ensures
            caller != old(self).admin ==> r == Err::<(), ErrorCode>(ErrorCode::NotAuthorized) && final(self).failure_threshold == old(self).failure_threshold,
            caller == old(self).admin ==> r is Ok && final(self).failure_threshold == threshold,
            final(self).bonds@ == old(self).bonds@,
            final(self).slash_percent == old(self).slash_percent,
            final(self).admin == old(self).admin,
    {
        if caller != self.admin {
            return Err(ErrorCode::NotAuthorized);
        }
        self.failure_threshold = threshold;
        Ok(())
    }

    /// Sets the reward credited per submission at full accuracy
    /// (administrator only).
    pub fn set_relayer_reward_rate(&mut self, caller: u64, rate: i128) -> (r: Result<(), ErrorCode>)
        ensures
            caller != old(self).admin ==> r == Err::<(), ErrorCode>(ErrorCode::NotAuthorized) && final(self).reward_rate == old(self).reward_rate,
            caller == old(self).admin ==> r is Ok && final(self).reward_rate == rate,
            final(self).bonds@ == old(self).bonds@,
            final(self).slash_percent == old(self).slash_percent,
            final(self).admin == old(self).admin,
    {
        if caller != self.admin {
            return Err(ErrorCode::NotAuthorized);
        }
        self.reward_rate = rate;
        Ok(())
    }

    /// Sets the flat fee credited per relayed submission (administrator only).
    pub fn set_relayer_fee_per_submission(&mut self, caller: u64, fee: i128) -> (r: Result<(), ErrorCode>)
        ensures
            caller != old(self).admin ==> r == Err::<(), ErrorCode>(ErrorCode::NotAuthorized) && final(self).fee_per_submission == old(self).fee_per_submission,
            caller == old(self).admin ==> r is Ok && final(self).fee_per_submission == fee,
            final(self).bonds@ == old(self).bonds@,
            final(self).slash_percent == old(self).slash_percent,
            final(self).admin == old(self).admin,
    {
        if caller != self.admin {
            return Err(ErrorCode::NotAuthorized);
        }
        self.fee_per_submission = fee;
        Ok(())
    }

    /// Submission counts of every registered relayer, in registry order.
    pub open spec fn registry_counts(&self) -> Seq<u64> {
        self.registry@.map_values(|r: u64| self.count_of(r))
    }

    /// The dashboard of `relayer` at `now`, drawing its counts, balances and
    /// approval ledger from the registry.
    pub fn get_relayer_dashboard(&self, relayer: u64, now: LedgerInfo) -> (r: RelayerDashboard)
        requires
            self.registry@.len() * 100 <= u32::MAX,
            self.stats.has(relayer) ==> self.stats.metrics@[relayer].latency_history.len() * 99 <= u32::MAX,
        ensures
            r.relayer == relayer,
            r.total_submissions == self.count_of(relayer),
            r.failed_submissions == self.failures_of(relayer),
            r.success_rate_bps == crate::relayer_dashboard::success_bps(self.count_of(relayer), self.failures_of(relayer) as u64),
            r.fee_earnings == get_i128(self.fee_balances@, relayer),
            r.reward_earnings == get_i128(self.rewards@, relayer),
            r.bond_deposited == self.bond_of(relayer),
            r.percentile_rank == crate::relayer_dashboard::rank_spec(self.registry_counts(), self.count_of(relayer)),
    {
        let n = self.registry.len();
        let mut counts: Vec<u64> = Vec::new();
        let mut i: usize = 0;
        while i < n
            invariant
                n == self.registry.len(),
                0 <= i <= n,
                counts@ == self.registry@.subrange(0, i as int).map_values(|r: u64| self.count_of(r)),
            decreases n - i,
        {
            counts.push(self.get_relayer_submission_count(self.registry[i]));
            i = i + 1;
            assert(counts@ =~= self.registry@.subrange(0, i as int).map_values(|r: u64| self.count_of(r)));
        }
        assert(self.registry@.subrange(0, n as int) =~= self.registry@);
        self.stats.get_relayer_dashboard(
            relayer,
            self.get_relayer_submission_count(relayer),
            self.get_relayer_failure_count(relayer),
            self.approved_at(relayer),
            self.get_relayer_fee_balance(relayer),
            self.get_relayer_reward_balance(relayer),
            self.get_relayer_bond_balance(relayer),
            &counts,
            now.sequence,
        )
    }
}


/// The domain tag of a delegation message.
pub open spec fn delegation_tag() -> Seq<u8> {
    seq![115u8, 111, 117, 114, 99, 101, 95, 114, 101, 108, 97, 121, 101, 114, 95, 100, 101, 108, 101, 103, 97, 116, 105, 111, 110, 95, 118, 49]
}

/// The digest a source signs to delegate to a relayer: SHA-256 of the tag
/// `source_relayer_delegation_v1`, the nonce (8 bytes, little-endian), the
/// source's and the relayer's encoded addresses and the expiration ledger
/// (4 bytes, little-endian).
pub open spec fn delegation_digest(nonce: u64, source_encoded: Seq<u8>, relayer_encoded: Seq<u8>, expiration_ledger: u32) -> Seq<u8> {
    crate::crypto::sha256_digest(delegation_tag() + crate::crypto::u64_le_bytes(nonce) + source_encoded + relayer_encoded
        + crate::crypto::u32_le_bytes(expiration_ledger))
}

/// Appends the delegation tag.
fn push_delegation_tag(out: &mut Vec<u8>)
    ensures
        final(out)@ == old(out)@ + delegation_tag(),
{
    let tag: [u8; 28] = [115u8, 111, 117, 114, 99, 101, 95, 114, 101, 108, 97, 121, 101, 114, 95, 100, 101, 108, 101, 103, 97, 116, 105, 111, 110, 95, 118, 49];
    assert(tag@ =~= delegation_tag());
    let ghost start = old(out)@;
    let mut i: usize = 0;
    while i < 28
        invariant
            0 <= i <= 28,
            tag@ == delegation_tag(),
            out@ == start + tag@.subrange(0, i as int),
        decreases 28 - i,
    {
        out.push(tag[i]);
        i = i + 1;
        assert(out@ =~= start + tag@.subrange(0, i as int));
    }
    assert(tag@.subrange(0, 28) =~= tag@);
}

impl Relayers {
    /// Latest delegation nonce of `source` (0 before any).
    pub open spec fn delegation_nonce_of(&self, source: u64) -> u64 {
        get_u64(self.delegation_nonces@, source)
    }

    /// The outcome of a delegation's checks that come before its signature
    /// is verified, in the order they are made.
    pub open spec fn delegate_check(&self, contract: &PriceOracleContract, source: u64, nonce: u64, expiration_ledger: u32,
        now: LedgerInfo) -> Result<(), ErrorCode> {
        if !contract.is_source_spec(source) {
            Err(ErrorCode::NotAuthorized)
        } else if now.sequence > expiration_ledger {
            Err(ErrorCode::SignatureExpired)
        } else if nonce <= self.delegation_nonce_of(source) {
            Err(ErrorCode::InvalidNonce)
        } else {
            Ok(())
        }
    }

    /// Records `source`'s signed delegation to `relayer`, valid up to
    /// `expiration_ledger`: the source must be registered, the delegation
    /// unexpired and its nonce above the source's previous one. Once those
    /// checks pass, `signature` must be a valid signature under the source's
    /// `public_key` of the delegation digest (over the addresses' encodings
    /// `source_encoded` and `relayer_encoded`): the host aborts the whole
    /// invocation on any other signature, so that case is not an outcome of
    /// this function (`try_delegate_relayer` verifies the signature first).
    pub fn delegate_relayer(&mut self, contract: &PriceOracleContract, source: u64, relayer: u64, nonce: u64, expiration_ledger: u32,
        source_encoded: &Vec<u8>, relayer_encoded: &Vec<u8>, public_key: &[u8; 32], signature: &[u8; 64], now: LedgerInfo) -> (r: Result<(), ErrorCode>)
        requires
            old(self).wf(),
            old(self).delegate_check(contract, source, nonce, expiration_ledger, now) is Ok ==> crate::crypto::ed25519_valid(public_key@,
                delegation_digest(nonce, source_encoded@, relayer_encoded@, expiration_ledger), signature@),
        ensures
            final(self).wf(),
            r == old(self).delegate_check(contract, source, nonce, expiration_ledger, now),
            r.is_ok() ==> final(self).delegations@ == old(self).delegations@.insert(pair_key_spec(source, relayer),
                RelayerDelegation { source, relayer, nonce, expiration_ledger }),
            r.is_ok() ==> final(self).delegation_nonces@ == old(self).delegation_nonces@.insert(source, nonce),
            r.is_err() ==> final(self).delegations@ == old(self).delegations@
                && final(self).delegation_nonces@ == old(self).delegation_nonces@,
            final(self).approved@ == old(self).approved@,
            final(self).bonds@ == old(self).bonds@,
            final(self).admin == old(self).admin,
    {
        if !contract.is_source(source) {
            return Err(ErrorCode::NotAuthorized);
        }
        if now.sequence > expiration_ledger {
            return Err(ErrorCode::SignatureExpired);
        }
        let last: u64 = match self.delegation_nonces.get(&source) {
            Some(n) => *n,
            None => 0,
        };
        if nonce <= last {
            return Err(ErrorCode::InvalidNonce);
        }
        let k = pair_key(source, relayer);
        self.delegations.insert(k, RelayerDelegation { source, relayer, nonce, expiration_ledger });
        self.delegation_nonces.insert(source, nonce);
        Ok(())
    }

    /// The delegation digest of `nonce`, the two address encodings and
    /// `expiration_ledger`.
    fn delegation_digest_of(nonce: u64, source_encoded: &Vec<u8>, relayer_encoded: &Vec<u8>, expiration_ledger: u32) -> (r: [u8; 32])
        ensures
            r@ == delegation_digest(nonce, source_encoded@, relayer_encoded@, expiration_ledger),
    {
        let mut msg: Vec<u8> = Vec::new();
        push_delegation_tag(&mut msg);
        crate::crypto::push_le(&mut msg, nonce as u128, 8);
        crate::commit_reveal::push_all(&mut msg, source_encoded);
        crate::commit_reveal::push_all(&mut msg, relayer_encoded);
        crate::crypto::push_le(&mut msg, expiration_ledger as u128, 4);
        proof {
            let a = crate::crypto::u64_le_bytes(nonce);
            let b = crate::crypto::u32_le_bytes(expiration_ledger);
            assert(Seq::new(8, |i: int| ((nonce as u128 as int / crate::crypto::pow256(i)) % 256) as u8) =~= a);
            assert(crate::crypto::pow256(0) == 1);
            assert(crate::crypto::pow256(1) == 256);
            assert(crate::crypto::pow256(2) == 65536);
            assert(crate::crypto::pow256(3) == 16777216);
            assert(Seq::new(4, |i: int| ((expiration_ledger as u128 as int / crate::crypto::pow256(i)) % 256) as u8) =~= b);
            assert(msg@ =~= delegation_tag() + a + source_encoded@ + relayer_encoded@ + b);
        }
        crate::crypto::sha256(msg.as_slice())
    }

    /// A delegation as the host runs it: once the checks before the
    /// signature pass, the signature is verified, and an invalid one aborts
    /// the invocation, given here as `None` with nothing changed. Otherwise
    /// the outcome is that of `delegate_relayer`.
    pub fn try_delegate_relayer(&mut self, contract: &PriceOracleContract, source: u64, relayer: u64, nonce: u64, expiration_ledger: u32,
        source_encoded: &Vec<u8>, relayer_encoded: &Vec<u8>, public_key: &[u8; 32], signature: &[u8; 64], now: LedgerInfo) -> (r: Option<Result<(), ErrorCode>>)
        requires
            old(self).wf(),
        ensures
            final(self).wf(),
            r == (if old(self).delegate_check(contract, source, nonce, expiration_ledger, now) is Ok
                && !crate::crypto::ed25519_valid(public_key@, delegation_digest(nonce, source_encoded@, relayer_encoded@, expiration_ledger), signature@) {
                None
            } else {
                Some(old(self).delegate_check(contract, source, nonce, expiration_ledger, now))
            }),
            r matches Some(Ok(())) ==> final(self).delegations@ == old(self).delegations@.insert(pair_key_spec(source, relayer),
                RelayerDelegation { source, relayer, nonce, expiration_ledger })
                && final(self).delegation_nonces@ == old(self).delegation_nonces@.insert(source, nonce),
            !(r matches Some(Ok(()))) ==> final(self).delegations@ == old(self).delegations@
                && final(self).delegation_nonces@ == old(self).delegation_nonces@,
            final(self).approved@ == old(self).approved@,
            final(self).bonds@ == old(self).bonds@,
            final(self).admin == old(self).admin,
    {
        let last: u64 = match self.delegation_nonces.get(&source) {
            Some(n) => *n,
            None => 0,
        };
        if contract.is_source(source) && now.sequence <= expiration_ledger && nonce > last {
            let digest = Self::delegation_digest_of(nonce, source_encoded, relayer_encoded, expiration_ledger);
            if !crate::crypto::ed25519_verify(public_key, digest.as_slice(), signature) {
                return None;
            }
        }
        Some(self.delegate_relayer(contract, source, relayer, nonce, expiration_ledger, source_encoded, relayer_encoded, public_key, signature, now))
    }
}


impl Relayers {
    /// The approval record of `relayer`.
    pub fn get_relayer_info(&self, relayer: u64) -> (r: Option<RelayerInfo>)
        ensures
            match r {
                Some(i) => self.approved@.contains_key(relayer) && i.name@ == self.approved@[relayer].name@
                    && i.approved_at_ledger == self.approved@[relayer].approved_at_ledger,
                None => !self.approved@.contains_key(relayer),
            },
    {
        match self.approved.get(&relayer) {
            Some(info) => Some(RelayerInfo { name: info.name.clone(), approved_at_ledger: info.approved_at_ledger }),
            None => None,
        }
    }

    /// The flat fee credited per relayed submission.
    pub fn get_relayer_fee_per_submission(&self) -> (r: i128)
        ensures
            r == self.fee_per_submission,
    {
        self.fee_per_submission
    }

    /// The bond a relayer must hold.
    pub fn get_relayer_bond_amount(&self) -> (r: i128)
        ensures
            r == self.bond_amount,
    {
        self.bond_amount
    }

    /// The share of a bond slashed, in percent.
    pub fn get_relayer_slash_percent(&self) -> (r: u32)
        ensures
            r == self.slash_percent,
    {
        self.slash_percent
    }

    /// The number of failures after which a bond may be slashed.
    pub fn get_relayer_failure_threshold(&self) -> (r: u32)
        ensures
            r == self.failure_threshold,
    {
        self.failure_threshold
    }

    /// The reward rate per relayed submission.
    pub fn get_relayer_reward_rate(&self) -> (r: i128)
        ensures
            r == self.reward_rate,
    {
        self.reward_rate
    }
}


/// Whether the legs are ordered by non-increasing priority fee.
pub open spec fn fee_ordered(legs: Seq<RelayedSubmission>) -> bool {
    forall|i: int| 1 <= i < legs.len() ==> #[trigger] legs[i].priority_fee <= legs[i - 1].priority_fee
}

/// Each pair of states is the previous one after the next leg of `legs`
/// was relayed by `relayer` and, when stored, counted with its priority fee.
pub open spec fn relay_chain(rels: Seq<Relayers>, cons: Seq<PriceOracleContract>, relayer: u64, legs: Seq<RelayedSubmission>, now: LedgerInfo) -> bool {
    &&& rels.len() == legs.len() + 1
    &&& cons.len() == legs.len() + 1
    &&& forall|k: int| 0 <= k < legs.len() ==> #[trigger] relay_step(rels[k], cons[k], rels[k + 1], cons[k + 1], relayer, legs[k], now)
}

/// `(after, after_contract)` follow from `(before, contract)` once `leg`
/// was relayed by `relayer` and, when stored, counted with its priority fee.
pub open spec fn relay_step(before: Relayers, contract: PriceOracleContract, after: Relayers, after_contract: PriceOracleContract, relayer: u64, leg: RelayedSubmission, now: LedgerInfo) -> bool {
    exists|mid: Relayers, stored: bool| {
        &&& #[trigger] before.leg_step(&contract, &mid, &after_contract, relayer, leg.source, leg.asset, leg.price,
            leg.timestamp, now, Ok::<bool, ErrorCode>(stored))
        &&& (stored ==> mid.accrued(&after, relayer, leg.priority_fee))
        &&& (!stored ==> after == mid)
    }
}

impl Relayers {
    /// The first refusal among the legs, each checked against this state.
    pub open spec fn legs_check(&self, contract: &PriceOracleContract, relayer: u64, legs: Seq<RelayedSubmission>, now: LedgerInfo) -> Result<(), ErrorCode>
        decreases legs.len(),
    {
        if legs.len() == 0 {
            Ok(())
        } else {
            let pre = self.legs_check(contract, relayer, legs.drop_last(), now);
            let l = legs.last();
            if pre is Err { pre } else { self.leg_check(contract, relayer, l.source, l.asset, l.price, l.timestamp, now) }
        }
    }

    /// The outcome of a relayed batch.
    pub open spec fn batch_relay_check(&self, contract: &PriceOracleContract, relayer: u64, legs: Seq<RelayedSubmission>, now: LedgerInfo) -> Result<(), ErrorCode> {
        if contract.config.paused {
            Err(ErrorCode::ContractPaused)
        } else if legs.len() == 0 {
            Err(ErrorCode::BatchEmpty)
        } else if legs.len() > MAX_BATCH_SIZE {
            Err(ErrorCode::BatchTooLarge)
        } else if !fee_ordered(legs) {
            Err(ErrorCode::BatchNotFeePrioritized)
        } else {
            self.legs_check(contract, relayer, legs, now)
        }
    }

    /// The checks of one relayed leg (see `leg_check`).
    fn check_leg(&self, contract: &PriceOracleContract, relayer: u64, source: u64, asset: u64, price: i128, timestamp: u64, now: LedgerInfo) -> (r: Result<(), ErrorCode>)
        ensures
            r == self.leg_check(contract, relayer, source, asset, price, timestamp, now),
    {
        if !self.is_relayer(relayer) && !self.has_valid_relayer_delegation(source, relayer, now.sequence) {
            return Err(ErrorCode::RelayerNotAuthorized);
        }
        if self.bond_amount > 0 && self.get_relayer_bond_balance(relayer) < self.bond_amount {
            return Err(ErrorCode::RelayerBondInsufficient);
        }
        if !contract.is_source(source) {
            return Err(ErrorCode::SourceNotFound);
        }
        if !contract.is_asset_registered(asset) {
            return Err(ErrorCode::AssetNotRegistered);
        }
        if price <= 0 {
            return Err(ErrorCode::InvalidPrice);
        }
        if price < contract.get_price_bounds(asset).min_price {
            return Err(ErrorCode::PriceBelowMinimum);
        }
        if timestamp > now.timestamp.saturating_add(contract.config.timestamp_threshold) {
            return Err(ErrorCode::InvalidTimestamp);
        }
        Ok(())
    }

    /// Relays several legs at once: the batch must be non-empty, at most
    /// `MAX_BATCH_SIZE` legs, ordered by non-increasing priority fee, and
    /// every leg must pass the checks of `submit_price_relayed`; a refused
    /// batch changes nothing. Each leg is then stored (unless its asset's
    /// circuit breaker has tripped) and counted for the relayer with its
    /// priority fee.
    pub fn submit_prices_relayed(&mut self, contract: &mut PriceOracleContract, relayer: u64, legs: &Vec<RelayedSubmission>, now: LedgerInfo) -> (r: Result<(), ErrorCode>)
        requires
            old(self).wf(),
            old(contract).wf(),
            old(contract).sources@.len() <= u32::MAX,
        ensures
            final(self).wf(),
            final(contract).wf(),
            r == old(self).batch_relay_check(old(contract), relayer, legs@, now),
            r is Err ==> *final(self) == *old(self) && *final(contract) == *old(contract),
            r is Ok ==> exists|rels: Seq<Relayers>, cons: Seq<PriceOracleContract>| {
                &&& #[trigger] relay_chain(rels, cons, relayer, legs@, now)
                &&& rels[0] == *old(self) && cons[0] == *old(contract)
                &&& rels.last() == *final(self) && cons.last() == *final(contract)
            },
    {
        if contract.config.paused {
            return Err(ErrorCode::ContractPaused);
        }
        let n = legs.len();
        if n == 0 {
            return Err(ErrorCode::BatchEmpty);
        }
        if n > MAX_BATCH_SIZE {
            return Err(ErrorCode::BatchTooLarge);
        }
        let mut i: usize = 1;
        while i < n
            invariant
                n == legs@.len(),
                1 <= i <= n,
                *self == *old(self),
                *contract == *old(contract),
                old(self).wf(),
                old(contract).wf(),
                !old(contract).config.paused,
                0 < n <= MAX_BATCH_SIZE,
                forall|k: int| 1 <= k < i ==> #[trigger] legs@[k].priority_fee <= legs@[k - 1].priority_fee,
            decreases n - i,
        {
            if legs[i].priority_fee > legs[i - 1].priority_fee {
                assert(!fee_ordered(legs@)) by {
                    assert(legs@[i as int].priority_fee > legs@[i - 1].priority_fee);
                }
                return Err(ErrorCode::BatchNotFeePrioritized);
            }
            i = i + 1;
        }
        let mut j: usize = 0;
        while j < n
            invariant
                n == legs@.len(),
                0 <= j <= n,
                *self == *old(self),
                *contract == *old(contract),
                old(self).wf(),
                old(contract).wf(),
                !old(contract).config.paused,
                0 < n <= MAX_BATCH_SIZE,
                fee_ordered(legs@),
                self.legs_check(contract, relayer, legs@.subrange(0, j as int), now) is Ok,
            decreases n - j,
        {
            proof {
                assert(legs@.subrange(0, j + 1).drop_last() =~= legs@.subrange(0, j as int));
                assert(legs@.subrange(0, j + 1).last() == legs@[j as int]);
            }
            let leg = legs[j];
            match self.check_leg(contract, relayer, leg.source, leg.asset, leg.price, leg.timestamp, now) {
                Err(e) => {
                    proof {
                        lemma_legs_first_error(self, contract, relayer, legs@, (j + 1) as int, now);
                    }
                    return Err(e);
                },
                Ok(()) => {},
            }
            j = j + 1;
        }
        proof {
            assert(legs@.subrange(0, n as int) =~= legs@);
            lemma_legs_check_all(self, contract, relayer, legs@, now);
        }
        let ghost rel0 = *self;
        let ghost con0 = *contract;
        let ghost mut rels: Seq<Relayers> = seq![*self];
        let ghost mut cons: Seq<PriceOracleContract> = seq![*contract];
        let mut k: usize = 0;
        while k < n
            invariant
                n == legs@.len(),
                0 <= k <= n,
                self.wf(),
                contract.wf(),
                contract.sources@.len() <= u32::MAX,
                forall|t: int| 0 <= t < n ==> #[trigger] rel0.leg_check(&con0, relayer, legs@[t].source, legs@[t].asset, legs@[t].price,
                    legs@[t].timestamp, now) is Ok,
                self.approved@ == rel0.approved@,
                self.delegations@ == rel0.delegations@,
                self.bond_amount == rel0.bond_amount,
                self.bonds@ == rel0.bonds@,
                contract.config == con0.config,
                contract.sources@ == con0.sources@,
                contract.assets@ == con0.assets@,
                contract.price_bounds@ == con0.price_bounds@,
                rels.len() == k + 1,
                cons.len() == k + 1,
                rels[0] == *old(self),
                cons[0] == *old(contract),
                rels.last() == *self,
                cons.last() == *contract,
                relay_chain(rels, cons, relayer, legs@.subrange(0, k as int), now),
            decreases n - k,
        {
            let leg = legs[k];
            let ghost rb = *self;
            let ghost cb = *contract;
            proof {
                assert(rel0.leg_check(&con0, relayer, legs@[k as int].source, legs@[k as int].asset, legs@[k as int].price,
                    legs@[k as int].timestamp, now) is Ok);
                assert(rb.leg_check(&cb, relayer, leg.source, leg.asset, leg.price, leg.timestamp, now) is Ok);
            }
            let res = self.process_relayed_leg(contract, relayer, leg.source, leg.asset, leg.price, leg.timestamp, now);
            let ghost mid = *self;
            let stored = match res {
                Ok(b) => b,
                Err(_) => false,
            };
            if stored {
                self.accrue_relayer_submission_metrics(relayer, leg.priority_fee);
            }
            proof {
                let r0 = rels;
                let c0 = cons;
                rels = rels.push(*self);
                cons = cons.push(*contract);
                let sub = legs@.subrange(0, k + 1);
                assert(rb.leg_step(&cb, &mid, contract, relayer, sub[k as int].source, sub[k as int].asset, sub[k as int].price,
                    sub[k as int].timestamp, now, Ok::<bool, ErrorCode>(stored)));
                assert forall|t: int| 0 <= t < sub.len() implies #[trigger] relay_step(rels[t], cons[t], rels[t + 1], cons[t + 1], relayer, sub[t], now) by {
                    if t < k {
                        assert(rels[t] == r0[t] && rels[t + 1] == r0[t + 1]);
                        assert(cons[t] == c0[t] && cons[t + 1] == c0[t + 1]);
                        assert(sub[t] == legs@.subrange(0, k as int)[t]);
                        assert(relay_step(r0[t], c0[t], r0[t + 1], c0[t + 1], relayer, legs@.subrange(0, k as int)[t], now));
                    } else {
                        assert(rels[t] == rb && cons[t] == cb);
                        assert(rels[t].leg_step(&cons[t], &mid, &cons[t + 1], relayer, sub[t].source, sub[t].asset, sub[t].price,
                            sub[t].timestamp, now, Ok::<bool, ErrorCode>(stored)));
                    }
                }
            }
            k = k + 1;
        }
        proof {
            assert(legs@.subrange(0, n as int) =~= legs@);
        }
        Ok(())
    }
}

pub proof fn lemma_legs_first_error(r: &Relayers, c: &PriceOracleContract, relayer: u64, legs: Seq<RelayedSubmission>, i: int, now: LedgerInfo)
    requires
        0 < i <= legs.len(),
        r.legs_check(c, relayer, legs.subrange(0, i), now) is Err,
    ensures
        r.legs_check(c, relayer, legs, now) == r.legs_check(c, relayer, legs.subrange(0, i), now),
    decreases legs.len() - i,
{
    if i < legs.len() {
        assert(legs.subrange(0, i + 1).drop_last() =~= legs.subrange(0, i));
        lemma_legs_first_error(r, c, relayer, legs, i + 1, now);
    } else {
        assert(legs.subrange(0, i) =~= legs);
    }
}

pub proof fn lemma_legs_check_all(r: &Relayers, c: &PriceOracleContract, relayer: u64, legs: Seq<RelayedSubmission>, now: LedgerInfo)
    requires
        r.legs_check(c, relayer, legs, now) is Ok,
    ensures
        forall|t: int| 0 <= t < legs.len() ==> #[trigger] r.leg_check(c, relayer, legs[t].source, legs[t].asset, legs[t].price,
            legs[t].timestamp, now) is Ok,
    decreases legs.len(),
{
    if legs.len() > 0 {
        lemma_legs_check_all(r, c, relayer, legs.drop_last(), now);
        assert forall|t: int| 0 <= t < legs.len() implies #[trigger] r.leg_check(c, relayer, legs[t].source, legs[t].asset, legs[t].price,
            legs[t].timestamp, now) is Ok by {
            if t < legs.len() - 1 {
                assert(legs.drop_last()[t] == legs[t]);
            }
        }
    }
}

} // verus!
