//! Source reputation and staking: scores from 0 to 100 that follow the
//! accuracy of a source's prices, drift back to neutral when idle, and
//! make a source's stake slashable when they fall below a threshold.

use vstd::prelude::*;
use std::collections::HashMap;
use crate::arith::{clamp_i128, div_trunc};
use crate::types::{ErrorCode, LedgerInfo};

verus! {

broadcast use vstd::std_specs::hash::group_hash_axioms;

/// Score of a source without history.
pub const INITIAL_REPUTATION: i128 = 50;
pub const MAX_REPUTATION: i128 = 100;
pub const MIN_REPUTATION: i128 = 0;
pub const DEFAULT_DECAY_FACTOR: u32 = 5;
pub const DEFAULT_SLASH_PERCENT: u32 = 20;
pub const DEFAULT_SLASH_THRESHOLD: u32 = 20;
pub const BPS_PRECISION: i128 = 10_000;

/// Stake locked by a source.
#[derive(Clone, Copy, Debug, PartialEq, Eq, Structural)]
pub struct SourceStakeRecord {
    pub amount: i128,
    pub last_updated_ledger: u32,
}

/// Scores, stakes and the treasury of slashed funds.
pub struct Reputation {
    pub admin: u64,
    pub scores: HashMap<u64, i128>,
    pub stakes: HashMap<u64, SourceStakeRecord>,
    pub treasury: i128,
    pub stake_token: Option<u64>,
    pub decay_factor: u32,
    pub slash_percent: u32,
    pub slash_threshold: u32,
}

/// `x` clamped to `[0, 100]`.
pub open spec fn clamp_score(x: int) -> int {
    if x < 0 { 0 } else if x > 100 { 100 } else { x }
}

/// Accuracy (0 to 100) of a price deviating `dev` basis points from the
/// median: 100 within 1%, falling linearly to 10 at 30%, then to 0 at 50%.
pub open spec fn accuracy_spec(dev: int) -> int {
    clamp_score(if dev >= 5000 {
        0
    } else if dev >= 3000 {
        10 - div_trunc((dev - 3000) * 10, 2000)
    } else if dev <= 100 {
        100
    } else {
        100 - div_trunc((dev - 100) * 90, 2900)
    })
}

/// Deviation in basis points of `price` from a positive `median`.
pub open spec fn deviation_spec(price: i128, median: i128) -> int {
    let d = if price >= median { price - median } else { median - price };
    clamp_i128(d * 10_000) / (median as int)
}

/// Score after an observation of accuracy `acc`, weighting it by `decay`
/// percent.
pub open spec fn next_score(old: int, acc: int, decay: int) -> int {
    clamp_score(div_trunc(old * (100 - decay) + acc * decay, 100))
}

/// Score `score` moved toward neutral by `decay` percent of its distance.
pub open spec fn decayed_score(score: int, decay: int) -> int {
    clamp_score(score - div_trunc((score - INITIAL_REPUTATION) * decay, 100))
}

impl Reputation {
    /// Scores lie in `[0, 100]`, stakes are not negative, and the factors are
    /// percentages.
    pub open spec fn wf(&self) -> bool {
        &&& forall|s: u64| #[trigger] self.scores@.contains_key(s) ==> 0 <= self.scores@[s] <= 100
        &&& forall|s: u64| #[trigger] self.stakes@.contains_key(s) ==> self.stakes@[s].amount >= 0
        &&& self.decay_factor <= 100
        &&& self.slash_percent <= 100
        &&& self.slash_threshold <= 100
    }

    /// Score of `source` (50 without history).
    pub open spec fn score_of(&self, source: u64) -> i128 {
        if self.scores@.contains_key(source) { self.scores@[source] } else { INITIAL_REPUTATION }
    }

    /// Stake of `source` (0 without one).
    pub open spec fn stake_of(&self, source: u64) -> i128 {
        if self.stakes@.contains_key(source) { self.stakes@[source].amount } else { 0 }
    }

    /// Nothing is changed but, possibly, the scores.
    pub open spec fn same_but_scores(&self, other: &Reputation) -> bool {
        &&& self.admin == other.admin
        &&& self.stakes@ == other.stakes@
        &&& self.treasury == other.treasury
        &&& self.stake_token == other.stake_token
        &&& self.decay_factor == other.decay_factor
        &&& self.slash_percent == other.slash_percent
        &&& self.slash_threshold == other.slash_threshold
    }

    /// Reputation administered by `admin` with the default factors.
    pub fn new(admin: u64) -> (r: Reputation)
        ensures
            r.wf(),
            r.admin == admin,
            r.scores@.len() == 0,
            r.stakes@.len() == 0,
            r.treasury == 0,
            r.stake_token is None,
            r.decay_factor == DEFAULT_DECAY_FACTOR,
            r.slash_percent == DEFAULT_SLASH_PERCENT,
            r.slash_threshold == DEFAULT_SLASH_THRESHOLD,
    {
        Reputation {
            admin,
            scores: HashMap::new(),
            stakes: HashMap::new(),
            treasury: 0,
            stake_token: None,
            decay_factor: DEFAULT_DECAY_FACTOR,
            slash_percent: DEFAULT_SLASH_PERCENT,
            slash_threshold: DEFAULT_SLASH_THRESHOLD,
        }
    }

    /// Score of `source`, 0 to 100.
    pub fn get_reputation(&self, source: u64) -> (r: u32)
        requires
            self.wf(),
        ensures
            r == self.score_of(source),
    {
        match self.scores.get(&source) {
            Some(s) => *s as u32,
            None => INITIAL_REPUTATION as u32,
        }
    }

    fn score(&self, source: u64) -> (r: i128)
        ensures
            r == self.score_of(source),
    {
        match self.scores.get(&source) {
            Some(s) => *s,
            None => INITIAL_REPUTATION,
        }
    }

    /// Moves the score of `source` toward the accuracy of `source_price`
    /// against a positive `median_price`; nothing happens for a median that
    /// is not positive.
    pub fn update_reputation_on_submission(&mut self, source: u64, source_price: i128, median_price: i128)
        requires
            old(self).wf(),
            median_price > 0 ==> i128::MIN < source_price - median_price <= i128::MAX,
        ensures
            final(self).wf(),
            final(self).same_but_scores(old(self)),
            median_price <= 0 ==> final(self).scores@ == old(self).scores@,
            median_price > 0 ==> final(self).scores@ == old(self).scores@.insert(source,
                next_score(old(self).score_of(source) as int, accuracy_spec(deviation_spec(source_price, median_price)), old(self).decay_factor as int) as i128),
    {
        if median_price <= 0 {
            return;
        }
        let old_score = self.score(source);
        let decay = self.decay_factor as i128;
        let d: i128 = if source_price >= median_price { source_price - median_price } else { median_price - source_price };
        let deviation = crate::arith::sat_mul(d, BPS_PRECISION) / median_price;
        assert(deviation >= 0);
        let acc0: i128 = if deviation >= 5000 {
            0
        } else if deviation >= 3000 {
            10 - (deviation - 3000) * 10 / 2000
        } else if deviation <= 100 {
            100
        } else {
            100 - (deviation - 100) * 90 / 2900
        };
        let acc = if acc0 < 0 { 0 } else if acc0 > 100 { 100 } else { acc0 };
        assert(0 <= old_score <= 100);
        assert(0 <= old_score * (100 - decay) <= 10000) by (nonlinear_arith)
            requires 0 <= old_score <= 100, 0 <= decay <= 100;
        assert(0 <= acc * decay <= 10000) by (nonlinear_arith)
            requires 0 <= acc <= 100, 0 <= decay <= 100;
        let raw = (old_score * (100 - decay) + acc * decay) / 100;
        let new_score = if raw < 0 { 0 } else if raw > 100 { 100 } else { raw };
        self.scores.insert(source, new_score);
    }

    /// Moves an idle source's score toward neutral by the decay factor.
    pub fn apply_reputation_decay(&mut self, source: u64)
        requires
            old(self).wf(),
        ensures
            final(self).wf(),
            final(self).same_but_scores(old(self)),
            ({
                let s = old(self).score_of(source) as int;
                let n = decayed_score(s, old(self).decay_factor as int);
                if s == INITIAL_REPUTATION || n == s {
                    final(self).scores@ == old(self).scores@
                } else {
                    final(self).scores@ == old(self).scores@.insert(source, n as i128)
                }
            }),
    {
        let score = self.score(source);
        if score == INITIAL_REPUTATION {
            return;
        }
        let decay = self.decay_factor as i128;
        assert(-5000 <= (score - INITIAL_REPUTATION) * decay <= 5000) by (nonlinear_arith)
            requires 0 <= score <= 100, 0 <= decay <= 100;
        let delta = (score - INITIAL_REPUTATION) * decay / 100;
        let n0 = score - delta;
        let n = if n0 < MIN_REPUTATION { MIN_REPUTATION } else if n0 > MAX_REPUTATION { MAX_REPUTATION } else { n0 };
        if n != score {
            self.scores.insert(source, n);
        }
    }

    /// Locks `amount` more stake for `source` (the transfer itself is made by
    /// the caller); the amount must be positive.
    pub fn stake_source(&mut self, source: u64, amount: i128, now: LedgerInfo) -> (r: Result<(), ErrorCode>)
        requires
            old(self).wf(),
        ensures
            final(self).wf(),
            amount <= 0 ==> r == Err::<(), ErrorCode>(ErrorCode::InvalidPrice) && final(self).stakes@ == old(self).stakes@,
            amount > 0 ==> r is Ok && final(self).stakes@ == old(self).stakes@.insert(source,
                SourceStakeRecord { amount: clamp_i128(old(self).stake_of(source) + amount) as i128, last_updated_ledger: now.sequence }),
            final(self).scores@ == old(self).scores@,
            final(self).treasury == old(self).treasury,
    {
        if amount <= 0 {
            return Err(ErrorCode::InvalidPrice);
        }
        let existing: i128 = match self.stakes.get(&source) {
            Some(s) => s.amount,
            None => 0,
        };
        self.stakes.insert(source, SourceStakeRecord { amount: crate::arith::sat_add(existing, amount), last_updated_ledger: now.sequence });
        Ok(())
    }

    /// Stake locked by `source`.
    pub fn get_stake(&self, source: u64) -> (r: i128)
        ensures
            r == self.stake_of(source),
    {
        match self.stakes.get(&source) {
            Some(s) => s.amount,
            None => 0,
        }
    }

    /// Releases the stake of a removed source; returns the amount to give
    /// back, if it had a stake record.
    pub fn unstake_source(&mut self, source: u64) -> (r: Option<i128>)
        requires
            old(self).wf(),
        ensures
            final(self).wf(),
            r == (if old(self).stakes@.contains_key(source) { Some(old(self).stakes@[source].amount) } else { None }),
            final(self).stakes@ == old(self).stakes@.remove(source),
            final(self).scores@ == old(self).scores@,
            final(self).treasury == old(self).treasury,
    {
        match self.stakes.remove(&source) {
            Some(s) => Some(s.amount),
            None => None,
        }
    }

    /// Slashes the stake of `source` (administrator only) when its score is
    /// below the threshold, or regardless when `force`: the slashed share
    /// (at least 1, at most the stake) goes to the treasury.
    pub fn slash_source(&mut self, caller: u64, source: u64, force: bool, now: LedgerInfo) -> (r: Result<(), ErrorCode>)
        requires
            old(self).wf(),
            old(self).stake_of(source) * 100 <= i128::MAX,
        ensures
            final(self).wf(),
            r == (if caller != old(self).admin {
                Err(ErrorCode::NotAuthorized)
            } else if !force && old(self).score_of(source) >= old(self).slash_threshold {
                Err(ErrorCode::ReputationTooHighToSlash)
            } else {
                Ok::<(), ErrorCode>(())
            }),
            r is Err || old(self).stake_of(source) == 0 ==> final(self).stakes@ == old(self).stakes@ && final(self).treasury == old(self).treasury,
            r is Ok && old(self).stake_of(source) != 0 ==> ({
                let s = crate::relayer::slash_amount_spec(old(self).stake_of(source), old(self).slash_percent);
                &&& final(self).stakes@ == old(self).stakes@.insert(source,
                    SourceStakeRecord { amount: (old(self).stake_of(source) - s) as i128, last_updated_ledger: now.sequence })
                &&& final(self).treasury == clamp_i128(old(self).treasury + s)
            }),
            final(self).scores@ == old(self).scores@,
    {
        if caller != self.admin {
            return Err(ErrorCode::NotAuthorized);
        }
        if !force && self.score(source) >= self.slash_threshold as i128 {
            return Err(ErrorCode::ReputationTooHighToSlash);
        }
        let amount = self.get_stake(source);
        if amount == 0 {
            return Ok(());
        }
        let pct = self.slash_percent as i128;
        assert(amount * pct <= amount * 100) by (nonlinear_arith)
            requires amount > 0, pct <= 100;
        let share = amount * pct / 100;
        assert(share <= amount) by (nonlinear_arith)
            requires share == amount * pct / 100, amount > 0, 0 <= pct <= 100;
        let slash = if share < 1 { 1 } else if share > amount { amount } else { share };
        self.stakes.insert(source, SourceStakeRecord { amount: amount - slash, last_updated_ledger: now.sequence });
        self.treasury = crate::arith::sat_add(self.treasury, slash);
        Ok(())
    }

    /// Empties a positive treasury when a stake token is configured
    /// (administrator only) and returns the amount to transfer out.
    pub fn sweep_treasury(&mut self, caller: u64) -> (r: Result<i128, ErrorCode>)
        requires
            old(self).wf(),
        ensures
            final(self).wf(),
            caller != old(self).admin ==> r == Err::<i128, ErrorCode>(ErrorCode::NotAuthorized) && final(self).treasury == old(self).treasury,
            caller == old(self).admin && (old(self).treasury <= 0 || old(self).stake_token is None)
                ==> r == Ok::<i128, ErrorCode>(0) && final(self).treasury == old(self).treasury,
            caller == old(self).admin && old(self).treasury > 0 && old(self).stake_token is Some
                ==> r == Ok::<i128, ErrorCode>(old(self).treasury) && final(self).treasury == 0,
            final(self).stakes@ == old(self).stakes@,
            final(self).scores@ == old(self).scores@,
    {
        if caller != self.admin {
            return Err(ErrorCode::NotAuthorized);
        }
        let balance = self.treasury;
        if balance <= 0 || self.stake_token.is_none() {
            return Ok(0);
        }
        self.treasury = 0;
        Ok(balance)
    }

    /// Sets the stake token (administrator only).
    pub fn set_stake_token_contract(&mut self, caller: u64, token: u64) -> (r: Result<(), ErrorCode>)
        requires
            old(self).wf(),
        ensures
            final(self).wf(),
            caller != old(self).admin ==> r == Err::<(), ErrorCode>(ErrorCode::NotAuthorized) && final(self).stake_token == old(self).stake_token,
            caller == old(self).admin ==> r is Ok && final(self).stake_token == Some(token),
            final(self).scores@ == old(self).scores@,
            final(self).stakes@ == old(self).stakes@,
    {
        if caller != self.admin {
            return Err(ErrorCode::NotAuthorized);
        }
        self.stake_token = Some(token);
        Ok(())
    }
}


impl Reputation {
    /// The stake record of `source` (an empty one dated `now` when none).
    pub fn get_stake_record(&self, source: u64, now: LedgerInfo) -> (r: SourceStakeRecord)
        ensures
            r == (if self.stakes@.contains_key(source) {
                self.stakes@[source]
            } else {
                SourceStakeRecord { amount: 0, last_updated_ledger: now.sequence }
            }),
    {
        match self.stakes.get(&source) {
            Some(rec) => *rec,
            None => SourceStakeRecord { amount: 0, last_updated_ledger: now.sequence },
        }
    }

    /// Funds slashed and not yet swept.
    pub fn get_treasury_balance(&self) -> (r: i128)
        ensures
            r == self.treasury,
    {
        self.treasury
    }

    /// The token stakes are paid in.
    pub fn get_stake_token_contract(&self) -> (r: Option<u64>)
        ensures
            r == self.stake_token,
    {
        self.stake_token
    }

    /// Sets the reputation decay factor (administrator only; at most 100).
    pub fn set_decay_factor(&mut self, caller: u64, factor: u32) -> (r: Result<(), ErrorCode>)
        requires
            old(self).wf(),
        ensures
            final(self).wf(),
            r == (if caller != old(self).admin {
                Err(ErrorCode::NotAuthorized)
            } else if factor > 100 {
                Err(ErrorCode::InvalidConfiguration)
            } else {
                Ok::<(), ErrorCode>(())
            }),
            final(self).decay_factor == (if r is Ok { factor } else { old(self).decay_factor }),
            final(self).slash_percent == old(self).slash_percent,
            final(self).slash_threshold == old(self).slash_threshold,
            final(self).scores@ == old(self).scores@,
            final(self).stakes@ == old(self).stakes@,
    {
        if caller != self.admin {
            return Err(ErrorCode::NotAuthorized);
        }
        if factor > 100 {
            return Err(ErrorCode::InvalidConfiguration);
        }
        self.decay_factor = factor;
        Ok(())
    }

    /// The reputation decay factor.
    pub fn get_decay_factor(&self) -> (r: u32)
        ensures
            r == self.decay_factor,
    {
        self.decay_factor
    }

    /// Sets the share of a stake slashed, in percent (administrator only;
    /// at most 100).
    pub fn set_slash_percent(&mut self, caller: u64, percent: u32) -> (r: Result<(), ErrorCode>)
        requires
            old(self).wf(),
        ensures
            final(self).wf(),
            r == (if caller != old(self).admin {
                Err(ErrorCode::NotAuthorized)
            } else if percent > 100 {
                Err(ErrorCode::InvalidConfiguration)
            } else {
                Ok::<(), ErrorCode>(())
            }),
            final(self).slash_percent == (if r is Ok { percent } else { old(self).slash_percent }),
            final(self).decay_factor == old(self).decay_factor,
            final(self).slash_threshold == old(self).slash_threshold,
            final(self).scores@ == old(self).scores@,
            final(self).stakes@ == old(self).stakes@,
    {
        if caller != self.admin {
            return Err(ErrorCode::NotAuthorized);
        }
        if percent > 100 {
            return Err(ErrorCode::InvalidConfiguration);
        }
        self.slash_percent = percent;
        Ok(())
    }

    /// The share of a stake slashed, in percent.
    pub fn get_slash_percent(&self) -> (r: u32)
        ensures
            r == self.slash_percent,
    {
        self.slash_percent
    }

    /// Sets the reputation below which a source may be slashed
    /// (administrator only; at most 100).
    pub fn set_slash_threshold(&mut self, caller: u64, threshold: u32) -> (r: Result<(), ErrorCode>)
        requires
            old(self).wf(),
        ensures
            final(self).wf(),
            r == (if caller != old(self).admin {
                Err(ErrorCode::NotAuthorized)
            } else if threshold > 100 {
                Err(ErrorCode::InvalidConfiguration)
            } else {
                Ok::<(), ErrorCode>(())
            }),
            final(self).slash_threshold == (if r is Ok { threshold } else { old(self).slash_threshold }),
            final(self).decay_factor == old(self).decay_factor,
            final(self).slash_percent == old(self).slash_percent,
            final(self).scores@ == old(self).scores@,
            final(self).stakes@ == old(self).stakes@,
    {
        if caller != self.admin {
            return Err(ErrorCode::NotAuthorized);
        }
        if threshold > 100 {
            return Err(ErrorCode::InvalidConfiguration);
        }
        self.slash_threshold = threshold;
        Ok(())
    }

    /// The reputation below which a source may be slashed.
    pub fn get_slash_threshold(&self) -> (r: u32)
        ensures
            r == self.slash_threshold,
    {
        self.slash_threshold
    }
}

} // verus!
