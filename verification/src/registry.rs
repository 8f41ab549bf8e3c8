//! Small registries kept beside the oracle: per-asset decimals, consumers'
//! subscriptions to price updates, the administrator's notification
//! preferences, and the reentrancy guard.

use vstd::prelude::*;
use std::collections::HashMap;
use crate::admin::{remove_all, without};
use crate::oracle::{byte_len, description_len, pair_key, pair_key_spec, PriceOracleContract};
use crate::types::{ErrorCode, LedgerInfo};

verus! {

broadcast use vstd::std_specs::hash::group_hash_axioms;

/// Largest accepted decimals of an asset.
pub const MAX_ASSET_DECIMALS: u32 = 18;
/// Longest accepted notification channel or target, in bytes.
pub const MAX_NOTIFICATION_STRING_LEN: usize = 256;

// ── per-asset decimals ─────────────────────────────────────────────────────

/// Decimals configured for one asset.
#[derive(Clone, Copy, Debug, PartialEq, Eq, Structural)]
pub struct AssetDecimalConfig {
    pub decimals: u32,
    /// Ledger of the setting.
    pub set_ledger: u32,
}

/// Per-asset decimals, overriding the oracle's.
pub struct AssetDecimals {
    pub configs: HashMap<u64, AssetDecimalConfig>,
}

impl AssetDecimals {
    /// The decimals of `asset`: its own when configured, else the oracle's.
    pub open spec fn decimals_of(&self, oracle: &PriceOracleContract, asset: u64) -> u32 {
        if self.configs@.contains_key(asset) { self.configs@[asset].decimals } else { oracle.config.decimals }
    }

    /// No asset configured.
    pub fn new() -> (r: AssetDecimals)
        ensures
            r.configs@ == Map::<u64, AssetDecimalConfig>::empty(),
    {
        AssetDecimals { configs: HashMap::new() }
    }

    /// The decimals of `asset`.
    pub fn get_asset_decimals(&self, oracle: &PriceOracleContract, asset: u64) -> (r: u32)
        ensures
            r == self.decimals_of(oracle, asset),
    {
        match self.configs.get(&asset) {
            Some(c) => c.decimals,
            None => oracle.config.decimals,
        }
    }

    /// The decimals prices of `asset` are expressed in.
    pub fn get_effective_decimals(&self, oracle: &PriceOracleContract, asset: u64) -> (r: u32)
        ensures
            r == self.decimals_of(oracle, asset),
    {
        self.get_asset_decimals(oracle, asset)
    }

    /// Configures the decimals of the registered `asset` (administrator
    /// only; at most 18).
    pub fn set_asset_decimals(&mut self, oracle: &PriceOracleContract, caller: u64, asset: u64, decimals: u32, now: LedgerInfo) -> (r: Result<(), ErrorCode>)
        ensures
            r == (if caller != oracle.config.admin {
                Err(ErrorCode::NotAuthorized)
            } else if !oracle.assets@.contains(asset) {
                Err(ErrorCode::AssetNotRegistered)
            } else if decimals > MAX_ASSET_DECIMALS {
                Err(ErrorCode::InvalidConfiguration)
            } else {
                Ok(())
            }),
            final(self).configs@ == (if r.is_ok() {
                old(self).configs@.insert(asset, AssetDecimalConfig { decimals, set_ledger: now.sequence })
            } else {
                old(self).configs@
            }),
    {
        if caller != oracle.config.admin {
            return Err(ErrorCode::NotAuthorized);
        }
        if !oracle.is_asset_registered(asset) {
            return Err(ErrorCode::AssetNotRegistered);
        }
        if decimals > MAX_ASSET_DECIMALS {
            return Err(ErrorCode::InvalidConfiguration);
        }
        self.configs.insert(asset, AssetDecimalConfig { decimals, set_ledger: now.sequence });
        Ok(())
    }

    /// Drops the decimals of the registered `asset`, which then follows the
    /// oracle's (administrator only).
    pub fn clear_asset_decimals(&mut self, oracle: &PriceOracleContract, caller: u64, asset: u64) -> (r: Result<(), ErrorCode>)
        ensures
            r == (if caller != oracle.config.admin {
                Err(ErrorCode::NotAuthorized)
            } else if !oracle.assets@.contains(asset) {
                Err(ErrorCode::AssetNotRegistered)
            } else {
                Ok(())
            }),
            final(self).configs@ == (if r.is_ok() { old(self).configs@.remove(asset) } else { old(self).configs@ }),
    {
        if caller != oracle.config.admin {
            return Err(ErrorCode::NotAuthorized);
        }
        if !oracle.is_asset_registered(asset) {
            return Err(ErrorCode::AssetNotRegistered);
        }
        self.configs.remove(&asset);
        Ok(())
    }
}

// ── subscriptions ──────────────────────────────────────────────────────────

/// Consumers' interest in the price updates of assets.
pub struct Subscriptions {
    /// Present for each subscribed `pair_key(asset, consumer)`.
    pub flags: HashMap<u128, bool>,
    /// Subscribers of each asset, in order of subscription.
    pub lists: HashMap<u64, Vec<u64>>,
}

impl Subscriptions {
    /// Whether `consumer` subscribed to `asset`.
    pub open spec fn subscribed(&self, consumer: u64, asset: u64) -> bool {
        let k = pair_key_spec(asset, consumer);
        self.flags@.contains_key(k) && self.flags@[k]
    }

    /// The subscribers of `asset`, in order of subscription.
    pub open spec fn subscribers(&self, asset: u64) -> Seq<u64> {
        if self.lists@.contains_key(asset) { self.lists@[asset]@ } else { Seq::empty() }
    }

    /// No subscription.
    pub fn new() -> (r: Subscriptions)
        ensures
            forall|c: u64, a: u64| !#[trigger] r.subscribed(c, a),
            forall|a: u64| #[trigger] r.subscribers(a) == Seq::<u64>::empty(),
    {
        Subscriptions { flags: HashMap::new(), lists: HashMap::new() }
    }

    /// Whether `consumer` is subscribed to `asset`.
    pub fn is_subscribed_to_asset(&self, consumer: u64, asset: u64) -> (r: bool)
        ensures
            r == self.subscribed(consumer, asset),
    {
        match self.flags.get(&pair_key(asset, consumer)) {
            Some(f) => *f,
            None => false,
        }
    }

    /// Subscribes `consumer` to the updates of the registered `asset`;
    /// subscribing again changes nothing.
    pub fn subscribe_price_updates(&mut self, oracle: &PriceOracleContract, consumer: u64, asset: u64) -> (r: Result<(), ErrorCode>)
        ensures
            r == (if oracle.assets@.contains(asset) { Ok(()) } else { Err::<(), ErrorCode>(ErrorCode::AssetNotRegistered) }),
            forall|c: u64, a: u64| #[trigger] final(self).subscribed(c, a) == (old(self).subscribed(c, a)
                || (r.is_ok() && c == consumer && a == asset)),
            forall|a: u64| #[trigger] final(self).subscribers(a) == (if r.is_ok() && a == asset && !old(self).subscribed(consumer, asset) {
                old(self).subscribers(a).push(consumer)
            } else {
                old(self).subscribers(a)
            }),
    {
        if !oracle.is_asset_registered(asset) {
            return Err(ErrorCode::AssetNotRegistered);
        }
        if self.is_subscribed_to_asset(consumer, asset) {
            return Ok(());
        }
        let k = pair_key(asset, consumer);
        proof {
            assert forall|c: u64, a: u64| pair_key_spec(a, c) == k implies c == consumer && a == asset by {
                crate::oracle::lemma_pair_key_injective(a, c, asset, consumer);
            }
        }
        self.flags.insert(k, true);
        let mut list: Vec<u64> = match self.lists.remove(&asset) {
            Some(v) => v,
            None => Vec::new(),
        };
        list.push(consumer);
        self.lists.insert(asset, list);
        Ok(())
    }

    /// Withdraws `consumer`'s subscription to the registered `asset`; without
    /// a subscription nothing changes.
    pub fn unsubscribe_price_updates(&mut self, oracle: &PriceOracleContract, consumer: u64, asset: u64) -> (r: Result<(), ErrorCode>)
        ensures
            r == (if oracle.assets@.contains(asset) { Ok(()) } else { Err::<(), ErrorCode>(ErrorCode::AssetNotRegistered) }),
            forall|c: u64, a: u64| #[trigger] final(self).subscribed(c, a) == (old(self).subscribed(c, a)
                && !(r.is_ok() && c == consumer && a == asset)),
            forall|a: u64| #[trigger] final(self).subscribers(a) == (if r.is_ok() && a == asset && old(self).subscribed(consumer, asset) {
                without(old(self).subscribers(a), consumer)
            } else {
                old(self).subscribers(a)
            }),
    {
        if !oracle.is_asset_registered(asset) {
            return Err(ErrorCode::AssetNotRegistered);
        }
        if !self.is_subscribed_to_asset(consumer, asset) {
            return Ok(());
        }
        let k = pair_key(asset, consumer);
        proof {
            assert forall|c: u64, a: u64| pair_key_spec(a, c) == k implies c == consumer && a == asset by {
                crate::oracle::lemma_pair_key_injective(a, c, asset, consumer);
            }
        }
        self.flags.remove(&k);
        let list: Vec<u64> = match self.lists.get(&asset) {
            Some(v) => remove_all(v, consumer),
            None => {
                proof {
                    assert(without(Seq::<u64>::empty(), consumer) == Seq::<u64>::empty());
                }
                Vec::new()
            },
        };
        self.lists.insert(asset, list);
        Ok(())
    }

    /// The subscribers of the registered `asset`, in order of subscription.
    pub fn get_subscribed_consumers(&self, oracle: &PriceOracleContract, asset: u64) -> (r: Result<Vec<u64>, ErrorCode>)
        ensures
            match r {
                Ok(v) => oracle.assets@.contains(asset) && v@ == self.subscribers(asset),
                Err(e) => !oracle.assets@.contains(asset) && e == ErrorCode::AssetNotRegistered,
            },
    {
        if !oracle.is_asset_registered(asset) {
            return Err(ErrorCode::AssetNotRegistered);
        }
        match self.lists.get(&asset) {
            Some(v) => Ok(v.clone()),
            None => Ok(Vec::new()),
        }
    }
}

// ── notification preferences ───────────────────────────────────────────────

/// Where to notify the administrator of one kind of event.
pub struct NotificationPreference {
    pub event_type: u32,
    pub channel: String,
    pub target: String,
}

/// The preferences by their characters.
pub open spec fn pref_views(s: Seq<NotificationPreference>) -> Seq<(u32, Seq<char>, Seq<char>)>
    decreases s.len(),
{
    if s.len() == 0 {
        Seq::empty()
    } else {
        pref_views(s.drop_last()).push((s.last().event_type, s.last().channel@, s.last().target@))
    }
}

pub proof fn lemma_pref_views(s: Seq<NotificationPreference>)
    ensures
        pref_views(s).len() == s.len(),
        forall|i: int| 0 <= i < s.len() ==> #[trigger] pref_views(s)[i] == (s[i].event_type, s[i].channel@, s[i].target@),
    decreases s.len(),
{
    if s.len() > 0 {
        lemma_pref_views(s.drop_last());
    }
}

/// `v` without any occurrence of `x`.
pub open spec fn without_u32(v: Seq<u32>, x: u32) -> Seq<u32>
    decreases v.len(),
{
    if v.len() == 0 {
        Seq::empty()
    } else {
        let rest = without_u32(v.drop_last(), x);
        if v.last() != x { rest.push(v.last()) } else { rest }
    }
}

/// The administrator's notification preferences per event type.
pub struct Notifications {
    pub prefs: HashMap<u32, Vec<NotificationPreference>>,
    /// Event types with preferences, in order of their first preference.
    pub event_types: Vec<u32>,
}

impl Notifications {
    /// The preferences of `event_type`, by their characters.
    pub open spec fn prefs_of(&self, event_type: u32) -> Seq<(u32, Seq<char>, Seq<char>)> {
        if self.prefs@.contains_key(event_type) { pref_views(self.prefs@[event_type]@) } else { Seq::empty() }
    }

    /// No preference.
    pub fn new() -> (r: Notifications)
        ensures
            forall|t: u32| #[trigger] r.prefs_of(t) == Seq::<(u32, Seq<char>, Seq<char>)>::empty(),
            r.event_types@ == Seq::<u32>::empty(),
    {
        Notifications { prefs: HashMap::new(), event_types: Vec::new() }
    }

    /// Registers `target` on `channel` for `event_type` (administrator
    /// only); both at most 256 bytes long. An existing identical preference
    /// is not duplicated.
    pub fn set_notification_preference(&mut self, oracle: &PriceOracleContract, caller: u64, event_type: u32, channel: String, target: String) -> (r: Result<(), ErrorCode>)
        ensures
            r == (if caller != oracle.config.admin {
                Err(ErrorCode::NotAuthorized)
            } else if byte_len(channel@) > MAX_NOTIFICATION_STRING_LEN || byte_len(target@) > MAX_NOTIFICATION_STRING_LEN {
                Err(ErrorCode::NotificationConfigInvalid)
            } else {
                Ok(())
            }),
            forall|t: u32| #[trigger] final(self).prefs_of(t) == (if r.is_ok() && t == event_type
                && !(exists|i: int| 0 <= i < old(self).prefs_of(t).len() && #[trigger] old(self).prefs_of(t)[i].1 == channel@
                    && old(self).prefs_of(t)[i].2 == target@) {
                old(self).prefs_of(t).push((event_type, channel@, target@))
            } else {
                old(self).prefs_of(t)
            }),
            final(self).event_types@ == (if r.is_ok() && !old(self).event_types@.contains(event_type)
                && !(exists|i: int| 0 <= i < old(self).prefs_of(event_type).len() && #[trigger] old(self).prefs_of(event_type)[i].1 == channel@
                    && old(self).prefs_of(event_type)[i].2 == target@) {
                old(self).event_types@.push(event_type)
            } else {
                old(self).event_types@
            }),
    {
        if caller != oracle.config.admin {
            return Err(ErrorCode::NotAuthorized);
        }
        if description_len(&channel) > MAX_NOTIFICATION_STRING_LEN || description_len(&target) > MAX_NOTIFICATION_STRING_LEN {
            return Err(ErrorCode::NotificationConfigInvalid);
        }
        let ghost old_prefs = self.prefs_of(event_type);
        let mut list: Vec<NotificationPreference> = match self.prefs.remove(&event_type) {
            Some(v) => v,
            None => Vec::new(),
        };
        proof {
            lemma_pref_views(list@);
            assert(pref_views(list@) == old_prefs);
        }
        let mut exists_already = false;
        let mut i: usize = 0;
        while i < list.len()
            invariant
                0 <= i <= list@.len(),
                pref_views(list@) == old_prefs,
                old_prefs.len() == list@.len(),
                forall|k: int| 0 <= k < list@.len() ==> #[trigger] old_prefs[k] == (list@[k].event_type, list@[k].channel@, list@[k].target@),
                exists_already <==> exists|k: int| 0 <= k < i && #[trigger] old_prefs[k].1 == channel@ && old_prefs[k].2 == target@,
            decreases list@.len() - i,
        {
            proof {
                assert(old_prefs[i as int].1 == list@[i as int].channel@ && old_prefs[i as int].2 == list@[i as int].target@);
            }
            if list[i].channel == channel && list[i].target == target {
                exists_already = true;
            }
            i = i + 1;
        }
        if !exists_already {
            let ghost l0 = list@;
            list.push(NotificationPreference { event_type, channel, target });
            proof {
                assert(list@.drop_last() == l0);
            }
            let mut found = false;
            let mut j: usize = 0;
            while j < self.event_types.len()
                invariant
                    0 <= j <= self.event_types@.len(),
                    found <==> exists|k: int| 0 <= k < j && self.event_types@[k] == event_type,
                decreases self.event_types@.len() - j,
            {
                if self.event_types[j] == event_type {
                    found = true;
                }
                j = j + 1;
            }
            if !found {
                self.event_types.push(event_type);
            }
        }
        self.prefs.insert(event_type, list);
        Ok(())
    }

    /// The preferences registered for `event_type`.
    pub fn list_notification_preferences(&self, event_type: u32) -> (r: Vec<NotificationPreference>)
        ensures
            pref_views(r@) == self.prefs_of(event_type),
    {
        let mut out: Vec<NotificationPreference> = Vec::new();
        match self.prefs.get(&event_type) {
            Some(v) => {
                let mut i: usize = 0;
                while i < v.len()
                    invariant
                        0 <= i <= v@.len(),
                        pref_views(out@) == pref_views(v@.subrange(0, i as int)),
                    decreases v@.len() - i,
                {
                    let p = NotificationPreference {
                        event_type: v[i].event_type,
                        channel: v[i].channel.clone(),
                        target: v[i].target.clone(),
                    };
                    let ghost o0 = out@;
                    out.push(p);
                    proof {
                        assert(out@.drop_last() == o0);
                        assert(v@.subrange(0, i + 1).drop_last() =~= v@.subrange(0, i as int));
                    }
                    i = i + 1;
                }
                proof {
                    assert(v@.subrange(0, v@.len() as int) =~= v@);
                }
            },
            None => {},
        }
        out
    }

    /// The event types that have preferences.
    pub fn list_notification_event_types(&self) -> (r: Vec<u32>)
        ensures
            r@ == self.event_types@,
    {
        self.event_types.clone()
    }

    /// Drops every preference of `event_type` (administrator only).
    pub fn clear_notification_preferences(&mut self, oracle: &PriceOracleContract, caller: u64, event_type: u32) -> (r: Result<(), ErrorCode>)
        ensures
            r == (if caller == oracle.config.admin { Ok(()) } else { Err::<(), ErrorCode>(ErrorCode::NotAuthorized) }),
            forall|t: u32| #[trigger] final(self).prefs_of(t) == (if r.is_ok() && t == event_type {
                Seq::empty()
            } else {
                old(self).prefs_of(t)
            }),
            final(self).event_types@ == (if r.is_ok() { without_u32(old(self).event_types@, event_type) } else { old(self).event_types@ }),
    {
        if caller != oracle.config.admin {
            return Err(ErrorCode::NotAuthorized);
        }
        self.prefs.remove(&event_type);
        let mut kept: Vec<u32> = Vec::new();
        let mut i: usize = 0;
        while i < self.event_types.len()
            invariant
                0 <= i <= self.event_types@.len(),
                kept@ == without_u32(self.event_types@.subrange(0, i as int), event_type),
            decreases self.event_types@.len() - i,
        {
            proof {
                assert(self.event_types@.subrange(0, i + 1).drop_last() =~= self.event_types@.subrange(0, i as int));
            }
            if self.event_types[i] != event_type {
                kept.push(self.event_types[i]);
            }
            i = i + 1;
        }
        proof {
            assert(self.event_types@.subrange(0, self.event_types@.len() as int) =~= self.event_types@);
        }
        self.event_types = kept;
        Ok(())
    }
}

// ── reentrancy guard ───────────────────────────────────────────────────────

/// Marks an operation in progress.
pub struct ReentrancyGuard {
    pub entered: bool,
}

impl ReentrancyGuard {
    /// Not entered.
    pub fn new() -> (r: ReentrancyGuard)
        ensures
            !r.entered,
    {
        ReentrancyGuard { entered: false }
    }

    /// Marks the start of an operation; refused while one is in progress.
    pub fn enter(&mut self) -> (r: Result<(), ErrorCode>)
        ensures
            r == (if old(self).entered { Err(ErrorCode::Reentrant) } else { Ok::<(), ErrorCode>(()) }),
            final(self).entered,
    {
        if self.entered {
            return Err(ErrorCode::Reentrant);
        }
        self.entered = true;
        Ok(())
    }

    /// Marks the end of the operation in progress.
    pub fn exit(&mut self)
        ensures
            !final(self).entered,
    {
        self.entered = false;
    }
}

} // verus!
