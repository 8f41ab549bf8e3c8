//! History pruning: by per-asset retention window (entries older than the
//! window are dropped), by count (oldest entries beyond a length), or both.

use vstd::prelude::*;
use std::collections::HashMap;
use crate::history::{kept_since, lemma_kept_since_len, ledgers_increasing, prune_before_timestamp, prune_count, prune_oldest};
use crate::oracle::PriceOracleContract;
use crate::queries::sub_floor;
use crate::types::{ErrorCode, LedgerInfo, PriceHistoryEntry};

verus! {

broadcast use vstd::std_specs::hash::group_hash_axioms;

/// Per-asset retention windows in seconds (0 or absent: keep everything).
pub struct Retention {
    pub windows: HashMap<u64, u64>,
}

/// `a - b`, or 0 when `b > a`.
pub open spec fn sub_floor_u64(a: u64, b: u64) -> u64 {
    if a >= b { (a - b) as u64 } else { 0 }
}

/// The last `n` entries of `s` (all of them when shorter).
pub open spec fn keep_last(s: Seq<PriceHistoryEntry>, n: u32) -> Seq<PriceHistoryEntry> {
    s.subrange(prune_count(s.len() as int, n as int, u32::MAX as int), s.len() as int)
}

impl Retention {
    /// Retention window of `asset` (0 when none).
    pub open spec fn window_of(&self, asset: u64) -> u64 {
        if self.windows@.contains_key(asset) { self.windows@[asset] } else { 0 }
    }

    /// No retention windows.
    pub fn new() -> (r: Retention)
        ensures
            r.windows@ == Map::<u64, u64>::empty(),
    {
        Retention { windows: HashMap::new() }
    }

    /// Sets the retention window of a registered asset (administrator only).
    pub fn set_asset_retention_window(&mut self, contract: &PriceOracleContract, caller: u64, asset: u64, seconds: u64) -> (r: Result<(), ErrorCode>)
        ensures
            r == (if caller != contract.config.admin {
                Err(ErrorCode::NotAuthorized)
            } else if !contract.is_asset_spec(asset) {
                Err(ErrorCode::AssetNotRegistered)
            } else {
                Ok::<(), ErrorCode>(())
            }),
            r is Ok ==> final(self).windows@ == old(self).windows@.insert(asset, seconds),
            r is Err ==> final(self).windows@ == old(self).windows@,
    {
        if caller != contract.config.admin {
            return Err(ErrorCode::NotAuthorized);
        }
        if !contract.is_asset_registered(asset) {
            return Err(ErrorCode::AssetNotRegistered);
        }
        self.windows.insert(asset, seconds);
        Ok(())
    }

    /// The retention window of a registered asset.
    pub fn get_asset_retention_window(&self, contract: &PriceOracleContract, asset: u64) -> (r: Result<u64, ErrorCode>)
        ensures
            r == (if !contract.is_asset_spec(asset) { Err(ErrorCode::AssetNotRegistered) } else { Ok::<u64, ErrorCode>(self.window_of(asset)) }),
    {
        if !contract.is_asset_registered(asset) {
            return Err(ErrorCode::AssetNotRegistered);
        }
        match self.windows.get(&asset) {
            Some(w) => Ok(*w),
            None => Ok(0),
        }
    }

    /// Removes the retention window of a registered asset (administrator
    /// only); `NoData` when none is set.
    pub fn remove_asset_retention_window(&mut self, contract: &PriceOracleContract, caller: u64, asset: u64) -> (r: Result<(), ErrorCode>)
        ensures
            r == (if caller != contract.config.admin {
                Err(ErrorCode::NotAuthorized)
            } else if !contract.is_asset_spec(asset) {
                Err(ErrorCode::AssetNotRegistered)
            } else if !old(self).windows@.contains_key(asset) {
                Err(ErrorCode::NoData)
            } else {
                Ok::<(), ErrorCode>(())
            }),
            r is Ok ==> final(self).windows@ == old(self).windows@.remove(asset),
            r is Err ==> final(self).windows@ == old(self).windows@,
    {
        if caller != contract.config.admin {
            return Err(ErrorCode::NotAuthorized);
        }
        if !contract.is_asset_registered(asset) {
            return Err(ErrorCode::AssetNotRegistered);
        }
        if !self.windows.contains_key(&asset) {
            return Err(ErrorCode::NoData);
        }
        self.windows.remove(&asset);
        Ok(())
    }
}

impl PriceOracleContract {
    /// Everything but the history of `asset` is unchanged.
    pub open spec fn same_but_history(&self, other: &PriceOracleContract, asset: u64) -> bool {
        &&& self.config == other.config
        &&& self.sources@ == other.sources@
        &&& self.assets@ == other.assets@
        &&& self.submissions@ == other.submissions@
        &&& self.aggregates@ == other.aggregates@
        &&& self.overrides@ == other.overrides@
        &&& forall|a: u64| a != asset ==> #[trigger] self.histories@.contains_key(a) == other.histories@.contains_key(a)
            && (other.histories@.contains_key(a) ==> self.histories@[a] == other.histories@[a])
    }

    /// Replaces the history of `asset` by `h`.
    fn put_history(&mut self, asset: u64, h: Vec<PriceHistoryEntry>)
        requires
            old(self).wf(),
            ledgers_increasing(h@),
        ensures
            final(self).wf(),
            final(self).history(asset) == h@,
            final(self).same_but_history(old(self), asset),
    {
        self.histories.insert(asset, h);
    }

    fn history_vec(&self, asset: u64) -> (r: Vec<PriceHistoryEntry>)
        requires
            self.wf(),
        ensures
            r@ == self.history(asset),
            ledgers_increasing(r@),
    {
        match self.histories.get(&asset) {
            Some(h) => h.clone(),
            None => Vec::new(),
        }
    }

    /// Drops the history of a registered `asset` older than its retention
    /// window at `now`; returns how many entries went (0 without a window).
    pub fn prune_by_timestamp(&mut self, retention: &Retention, asset: u64, now: LedgerInfo) -> (r: Result<u32, ErrorCode>)
        requires
            old(self).wf(),
            old(self).history(asset).len() <= u32::MAX,
        ensures
            final(self).wf(),
            !old(self).is_asset_spec(asset) ==> r == Err::<u32, ErrorCode>(ErrorCode::AssetNotRegistered) && final(self).same_data(old(self)),
            old(self).is_asset_spec(asset) && retention.window_of(asset) == 0 ==> r == Ok::<u32, ErrorCode>(0) && final(self).same_data(old(self)),
            old(self).is_asset_spec(asset) && retention.window_of(asset) > 0 ==> ({
                let kept = kept_since(old(self).history(asset), sub_floor_u64(now.timestamp, retention.window_of(asset)));
                &&& r == Ok::<u32, ErrorCode>((old(self).history(asset).len() - kept.len()) as u32)
                &&& final(self).history(asset) == kept
                &&& final(self).same_but_history(old(self), asset)
            }),
            final(self).config == old(self).config,
    {
        if !self.is_asset_registered(asset) {
            return Err(ErrorCode::AssetNotRegistered);
        }
        let window = match retention.windows.get(&asset) {
            Some(w) => *w,
            None => 0,
        };
        if window == 0 {
            return Ok(0);
        }
        let cutoff = now.timestamp.saturating_sub(window);
        let h = self.history_vec(asset);
        let (kept, pruned) = prune_before_timestamp(&h, cutoff);
        proof {
            lemma_kept_since_len(h@, cutoff);
        }
        self.put_history(asset, kept);
        Ok(pruned)
    }

    /// Drops the oldest entries of a registered asset's history beyond
    /// `target` entries (administrator only); returns how many went.
    pub fn prune_history(&mut self, caller: u64, asset: u64, target: u32) -> (r: Result<u32, ErrorCode>)
        requires
            old(self).wf(),
            old(self).history(asset).len() <= u32::MAX,
        ensures
            final(self).wf(),
            r matches Err(e) ==> final(self).same_data(old(self)) && e == (if caller != old(self).config.admin {
                ErrorCode::NotAuthorized
            } else {
                ErrorCode::AssetNotRegistered
            }),
            r is Ok <==> caller == old(self).config.admin && old(self).is_asset_spec(asset),
            r is Ok ==> ({
                let h = old(self).history(asset);
                &&& r == Ok::<u32, ErrorCode>(prune_count(h.len() as int, target as int, u32::MAX as int) as u32)
                &&& final(self).history(asset) == keep_last(h, target)
                &&& final(self).same_but_history(old(self), asset)
            }),
            final(self).config == old(self).config,
    {
        if caller != self.config.admin {
            return Err(ErrorCode::NotAuthorized);
        }
        if !self.is_asset_registered(asset) {
            return Err(ErrorCode::AssetNotRegistered);
        }
        let h = self.history_vec(asset);
        let (kept, pruned) = prune_oldest(&h, target, u32::MAX);
        proof {
            assert forall|a: int, b: int| 0 <= a < b < kept@.len() implies kept@[a].ledger < kept@[b].ledger by {
                assert(kept@[a] == h@[a + pruned]);
                assert(kept@[b] == h@[b + pruned]);
            }
        }
        self.put_history(asset, kept);
        Ok(pruned)
    }

    /// Prunes a registered asset's history by its retention window and then
    /// to the configured history length; returns how many entries went in
    /// all.
    pub fn prune_combined(&mut self, retention: &Retention, asset: u64, now: LedgerInfo) -> (r: Result<u32, ErrorCode>)
        requires
            old(self).wf(),
            old(self).history(asset).len() <= u32::MAX,
        ensures
            final(self).wf(),
            !old(self).is_asset_spec(asset) ==> r == Err::<u32, ErrorCode>(ErrorCode::AssetNotRegistered) && final(self).same_data(old(self)),
            old(self).is_asset_spec(asset) ==> ({
                let h0 = old(self).history(asset);
                let h1 = if retention.window_of(asset) == 0 { h0 } else { kept_since(h0, sub_floor_u64(now.timestamp, retention.window_of(asset))) };
                let k = prune_count(h1.len() as int, old(self).config.max_history_length as int, u32::MAX as int);
                &&& r == Ok::<u32, ErrorCode>((h0.len() - h1.len() + k) as u32)
                &&& final(self).history(asset) == keep_last(h1, old(self).config.max_history_length)
                &&& final(self).same_but_history(old(self), asset)
            }),
            final(self).config == old(self).config,
    {
        let ts = match self.prune_by_timestamp(retention, asset, now) {
            Err(e) => {
                return Err(e);
            },
            Ok(n) => n,
        };
        let ghost mid = *self;
        proof {
            lemma_kept_since_len(old(self).history(asset), sub_floor_u64(now.timestamp, retention.window_of(asset)));
        }
        let h = self.history_vec(asset);
        let (kept, pruned) = prune_oldest(&h, self.config.max_history_length, u32::MAX);
        proof {
            assert forall|a: int, b: int| 0 <= a < b < kept@.len() implies kept@[a].ledger < kept@[b].ledger by {
                assert(kept@[a] == h@[a + pruned]);
                assert(kept@[b] == h@[b + pruned]);
            }
        }
        self.put_history(asset, kept);
        Ok(ts + pruned)
    }
}

} // verus!
