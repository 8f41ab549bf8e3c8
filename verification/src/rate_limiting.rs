//! Per-consumer query rate limits in three tiers: Free (10 queries per
//! ledger), Subscribed (100) and Enterprise (unlimited).

use vstd::prelude::*;
use std::collections::HashMap;
use crate::types::ErrorCode;

verus! {

broadcast use vstd::std_specs::hash::group_hash_axioms;

/// A consumer's rate-limit tier.
#[derive(Clone, Copy, Debug, PartialEq, Eq, Structural)]
pub enum RateLimitTier {
    Free,
    Subscribed,
    Enterprise,
}

impl RateLimitTier {
    /// Queries allowed per ledger (`u32::MAX` meaning unlimited).
    pub open spec fn limit_spec(self) -> u32 {
        match self {
            RateLimitTier::Free => 10,
            RateLimitTier::Subscribed => 100,
            RateLimitTier::Enterprise => u32::MAX,
        }
    }

    /// Queries allowed per ledger for this tier (`u32::MAX`: unlimited).
    pub fn request_limit(&self) -> (r: u32)
        ensures
            r == self.limit_spec(),
    {
        match self {
            RateLimitTier::Free => 10,
            RateLimitTier::Subscribed => 100,
            RateLimitTier::Enterprise => u32::MAX,
        }
    }
}

/// Key of a consumer's query count in one ledger.
pub open spec fn count_key_spec(consumer: u64, ledger: u32) -> u128 {
    (consumer as int * 0x1_0000_0000 + ledger as int) as u128
}

/// Key of a consumer's query count in one ledger.
pub fn count_key(consumer: u64, ledger: u32) -> (r: u128)
    ensures
        r == count_key_spec(consumer, ledger),
{
    assert(consumer as int * 0x1_0000_0000 + ledger <= u128::MAX) by (nonlinear_arith)
        requires consumer <= u64::MAX, ledger <= u32::MAX;
    (consumer as u128) * 0x1_0000_0000u128 + (ledger as u128)
}

/// Consumer tiers and per-ledger query counts.
pub struct RateLimits {
    pub admin: u64,
    /// Tier per consumer; consumers not listed are on the Free tier.
    pub tiers: HashMap<u64, RateLimitTier>,
    /// Queries counted per `count_key(consumer, ledger)`.
    pub counts: HashMap<u128, u32>,
}

impl RateLimits {
    /// The tier of `consumer`.
    pub open spec fn tier_of(&self, consumer: u64) -> RateLimitTier {
        if self.tiers@.contains_key(consumer) { self.tiers@[consumer] } else { RateLimitTier::Free }
    }

    /// Queries of `consumer` counted in `ledger`.
    pub open spec fn count_of(&self, consumer: u64, ledger: u32) -> u32 {
        let k = count_key_spec(consumer, ledger);
        if self.counts@.contains_key(k) { self.counts@[k] } else { 0 }
    }

    /// Limits administered by `admin`, with every consumer on the Free tier.
    pub fn new(admin: u64) -> (r: RateLimits)
        ensures
            r.admin == admin,
            r.tiers@ == Map::<u64, RateLimitTier>::empty(),
            r.counts@ == Map::<u128, u32>::empty(),
    {
        RateLimits { admin, tiers: HashMap::new(), counts: HashMap::new() }
    }

    /// The tier of `consumer` (Free unless assigned).
    pub fn get_consumer_tier(&self, consumer: u64) -> (r: RateLimitTier)
        ensures
            r == self.tier_of(consumer),
    {
        match self.tiers.get(&consumer) {
            Some(t) => *t,
            None => RateLimitTier::Free,
        }
    }

    /// Whether `consumer` is over its limit in `ledger`. A query within the
    /// limit is counted; an Enterprise consumer is never limited nor counted.
    pub fn check_rate_limit(&mut self, consumer: u64, ledger: u32) -> (r: bool)
        ensures
            final(self).admin == old(self).admin,
            final(self).tiers@ == old(self).tiers@,
            r == (old(self).tier_of(consumer) != RateLimitTier::Enterprise
                && old(self).count_of(consumer, ledger) >= old(self).tier_of(consumer).limit_spec()),
            old(self).tier_of(consumer) == RateLimitTier::Enterprise || r ==> final(self).counts@ == old(self).counts@,
            old(self).tier_of(consumer) != RateLimitTier::Enterprise && !r ==> final(self).counts@
                == old(self).counts@.insert(count_key_spec(consumer, ledger), (old(self).count_of(consumer, ledger) + 1) as u32),
            old(self).tier_of(consumer) != RateLimitTier::Enterprise && !r
                ==> final(self).count_of(consumer, ledger) <= old(self).tier_of(consumer).limit_spec(),
    {
        let tier = self.get_consumer_tier(consumer);
        let limit = tier.request_limit();
        if limit == u32::MAX {
            return false;
        }
        let k = count_key(consumer, ledger);
        let count: u32 = match self.counts.get(&k) {
            Some(c) => *c,
            None => 0,
        };
        if count >= limit {
            return true;
        }
        self.counts.insert(k, count + 1);
        false
    }

    /// Puts `consumer` on the Enterprise tier (administrator only).
    pub fn grant_enterprise_tier(&mut self, caller: u64, consumer: u64) -> (r: Result<(), ErrorCode>)
        ensures
            final(self).admin == old(self).admin,
            final(self).counts@ == old(self).counts@,
            caller != old(self).admin ==> r == Err::<(), ErrorCode>(ErrorCode::NotAuthorized) && final(self).tiers@ == old(self).tiers@,
            caller == old(self).admin ==> r is Ok && final(self).tiers@ == old(self).tiers@.insert(consumer, RateLimitTier::Enterprise),
    {
        if caller != self.admin {
            return Err(ErrorCode::NotAuthorized);
        }
        self.tiers.insert(consumer, RateLimitTier::Enterprise);
        Ok(())
    }

    /// Puts `consumer` back on the Free tier (administrator only).
    pub fn revoke_enterprise_tier(&mut self, caller: u64, consumer: u64) -> (r: Result<(), ErrorCode>)
        ensures
            final(self).admin == old(self).admin,
            final(self).counts@ == old(self).counts@,
            caller != old(self).admin ==> r == Err::<(), ErrorCode>(ErrorCode::NotAuthorized) && final(self).tiers@ == old(self).tiers@,
            caller == old(self).admin ==> r is Ok && final(self).tiers@ == old(self).tiers@.insert(consumer, RateLimitTier::Free),
    {
        if caller != self.admin {
            return Err(ErrorCode::NotAuthorized);
        }
        self.tiers.insert(consumer, RateLimitTier::Free);
        Ok(())
    }

    /// Assigns `tier` to `consumer` (administrator only); a subscription
    /// maps to Subscribed.
    pub fn set_consumer_tier(&mut self, caller: u64, consumer: u64, tier: RateLimitTier) -> (r: Result<(), ErrorCode>)
        ensures
            final(self).admin == old(self).admin,
            final(self).counts@ == old(self).counts@,
            caller != old(self).admin ==> r == Err::<(), ErrorCode>(ErrorCode::NotAuthorized) && final(self).tiers@ == old(self).tiers@,
            caller == old(self).admin ==> r is Ok && final(self).tiers@ == old(self).tiers@.insert(consumer, tier),
    {
        if caller != self.admin {
            return Err(ErrorCode::NotAuthorized);
        }
        self.tiers.insert(consumer, tier);
        Ok(())
    }
}

/// Queries per ledger allowed to a consumer without a subscription, unless
/// another limit is configured.
pub const DEFAULT_QUERY_RATE_LIMIT: u32 = 100;

/// Per-ledger query counting for consumers without a subscription.
pub struct QueryQuota {
    /// The configured limit; `DEFAULT_QUERY_RATE_LIMIT` when unset.
    pub limit: Option<u32>,
    /// Queries counted per `count_key(consumer, ledger)`.
    pub counts: HashMap<u128, u32>,
}

impl QueryQuota {
    /// The limit in force.
    pub open spec fn limit_of(&self) -> u32 {
        match self.limit {
            Some(l) => l,
            None => DEFAULT_QUERY_RATE_LIMIT,
        }
    }

    /// Queries of `consumer` counted in `ledger`.
    pub open spec fn count_of(&self, consumer: u64, ledger: u32) -> u32 {
        let k = count_key_spec(consumer, ledger);
        if self.counts@.contains_key(k) { self.counts@[k] } else { 0 }
    }

    /// No limit configured and nothing counted.
    pub fn new() -> (r: QueryQuota)
        ensures
            r.limit is None,
            r.counts@ == Map::<u128, u32>::empty(),
    {
        QueryQuota { limit: None, counts: HashMap::new() }
    }

    /// Counts a query of `consumer` in `ledger`. A subscribed consumer is
    /// neither limited nor counted; otherwise a query beyond the limit is
    /// `RateLimitExceeded` and is not counted.
    pub fn check_rate_limit_and_increment(&mut self, consumer: u64, subscribed: bool, ledger: u32) -> (r: Result<(), ErrorCode>)
        ensures
            final(self).limit == old(self).limit,
            r is Err <==> !subscribed && old(self).count_of(consumer, ledger) >= old(self).limit_of(),
            r matches Err(e) ==> e == ErrorCode::RateLimitExceeded,
            r is Err || subscribed ==> final(self).counts@ == old(self).counts@,
            r is Ok && !subscribed ==> final(self).counts@
                == old(self).counts@.insert(count_key_spec(consumer, ledger), (old(self).count_of(consumer, ledger) + 1) as u32),
            final(self).count_of(consumer, ledger) <= old(self).limit_of() || final(self).counts@ == old(self).counts@,
    {
        if subscribed {
            return Ok(());
        }
        let max_queries: u32 = match self.limit {
            Some(l) => l,
            None => DEFAULT_QUERY_RATE_LIMIT,
        };
        let k = count_key(consumer, ledger);
        let current: u32 = match self.counts.get(&k) {
            Some(c) => *c,
            None => 0,
        };
        if current >= max_queries {
            return Err(ErrorCode::RateLimitExceeded);
        }
        self.counts.insert(k, current + 1);
        Ok(())
    }
}

} // verus!
