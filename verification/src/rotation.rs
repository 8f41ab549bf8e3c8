//! Source rotation: per asset, an active and a standby set of sources that
//! swap on a schedule of ledgers.

use vstd::prelude::*;
use std::collections::HashMap;
use crate::types::{ErrorCode, LedgerInfo};

verus! {

broadcast use vstd::std_specs::hash::group_hash_axioms;

/// When an asset's sources rotate.
#[derive(Clone, Copy, Debug, PartialEq, Eq, Structural)]
pub struct SourceRotationSchedule {
    /// Ledgers between rotations.
    pub rotation_interval: u32,
    pub next_rotation_ledger: u32,
    /// Ledgers during which the old and the new set coexist.
    pub overlap_period: u32,
    pub enabled: bool,
}

/// Rotation schedules and source sets per asset.
pub struct Rotation {
    pub admin: u64,
    pub schedules: HashMap<u64, SourceRotationSchedule>,
    pub active: HashMap<u64, Vec<u64>>,
    pub standby: HashMap<u64, Vec<u64>>,
}

impl Rotation {
    /// The schedule of `asset`.
    pub open spec fn schedule_of(&self, asset: u64) -> Option<SourceRotationSchedule> {
        if self.schedules@.contains_key(asset) { Some(self.schedules@[asset]) } else { None }
    }

    /// The active sources of `asset` (none when unset).
    pub open spec fn active_of(&self, asset: u64) -> Seq<u64> {
        if self.active@.contains_key(asset) { self.active@[asset]@ } else { Seq::empty() }
    }

    /// The standby sources of `asset` (none when unset).
    pub open spec fn standby_of(&self, asset: u64) -> Seq<u64> {
        if self.standby@.contains_key(asset) { self.standby@[asset]@ } else { Seq::empty() }
    }

    /// No schedule and no source sets.
    pub fn new(admin: u64) -> (r: Rotation)
        ensures
            r.admin == admin,
            forall|a: u64| #[trigger] r.schedule_of(a).is_none(),
            forall|a: u64| #[trigger] r.active_of(a) == Seq::<u64>::empty(),
            forall|a: u64| #[trigger] r.standby_of(a) == Seq::<u64>::empty(),
    {
        Rotation { admin, schedules: HashMap::new(), active: HashMap::new(), standby: HashMap::new() }
    }

    /// Sets the rotation schedule of `asset` and its active sources: the
    /// first rotation falls `rotation_interval` ledgers from now.
    /// Administrator only; the interval must be positive and `sources`
    /// non-empty.
    pub fn set_source_schedule(&mut self, caller: u64, asset: u64, sources: Vec<u64>, rotation_interval: u32, overlap_period: u32, now: LedgerInfo) -> (r: Result<(), ErrorCode>)
        requires
            now.sequence + rotation_interval <= u32::MAX,
        ensures
            r == (if caller != old(self).admin {
                Err(ErrorCode::NotAuthorized)
            } else if rotation_interval == 0 || sources@.len() == 0 {
                Err(ErrorCode::InvalidConfiguration)
            } else {
                Ok(())
            }),
            r.is_ok() ==> final(self).schedules@ == old(self).schedules@.insert(asset, SourceRotationSchedule {
                rotation_interval,
                next_rotation_ledger: (now.sequence + rotation_interval) as u32,
                overlap_period,
                enabled: true,
            }),
            r.is_ok() ==> final(self).active@ == old(self).active@.insert(asset, sources),
            r.is_err() ==> final(self).schedules@ == old(self).schedules@ && final(self).active@ == old(self).active@,
            final(self).standby@ == old(self).standby@,
            final(self).admin == old(self).admin,
    {
        if caller != self.admin {
            return Err(ErrorCode::NotAuthorized);
        }
        if rotation_interval == 0 || sources.len() == 0 {
            return Err(ErrorCode::InvalidConfiguration);
        }
        let schedule = SourceRotationSchedule {
            rotation_interval,
            next_rotation_ledger: now.sequence + rotation_interval,
            overlap_period,
            enabled: true,
        };
        self.schedules.insert(asset, schedule);
        self.active.insert(asset, sources);
        Ok(())
    }

    /// Whether `asset`'s sources rotate at `ledger`: its schedule is enabled,
    /// due, and a standby set exists.
    pub open spec fn rotation_due(&self, asset: u64, ledger: u32) -> bool {
        &&& self.schedule_of(asset) matches Some(s)
        &&& s.enabled
        &&& ledger >= s.next_rotation_ledger
        &&& self.standby_of(asset).len() > 0
    }

    /// Rotates `asset`'s sources when due: the standby set becomes active,
    /// the active set becomes standby, and the next rotation is scheduled
    /// one interval from now. Returns whether a rotation happened.
    pub fn attempt_rotation(&mut self, asset: u64, now: LedgerInfo) -> (r: bool)
        requires
            old(self).schedule_of(asset) matches Some(s) ==> now.sequence + s.rotation_interval <= u32::MAX,
        ensures
            r == old(self).rotation_due(asset, now.sequence),
            r ==> final(self).active_of(asset) == old(self).standby_of(asset),
            r ==> final(self).standby_of(asset) == old(self).active_of(asset),
            r ==> final(self).schedule_of(asset) == Some(SourceRotationSchedule {
                next_rotation_ledger: (now.sequence + old(self).schedule_of(asset).unwrap().rotation_interval) as u32,
                ..old(self).schedule_of(asset).unwrap()
            }),
            !r ==> final(self).schedule_of(asset) == old(self).schedule_of(asset)
                && final(self).active_of(asset) == old(self).active_of(asset)
                && final(self).standby_of(asset) == old(self).standby_of(asset),
            forall|a: u64| a != asset ==> #[trigger] final(self).schedule_of(a) == old(self).schedule_of(a)
                && final(self).active_of(a) == old(self).active_of(a)
                && final(self).standby_of(a) == old(self).standby_of(a),
            final(self).admin == old(self).admin,
    {
        let sched = match self.schedules.get(&asset) {
            Some(s) => *s,
            None => {
                return false;
            },
        };
        if !sched.enabled {
            return false;
        }
        if now.sequence < sched.next_rotation_ledger {
            return false;
        }
        let standby_len: usize = match self.standby.get(&asset) {
            Some(v) => v.len(),
            None => 0,
        };
        if standby_len == 0 {
            return false;
        }
        let new_active = match self.standby.remove(&asset) {
            Some(v) => v,
            None => Vec::new(),
        };
        let new_standby = match self.active.remove(&asset) {
            Some(v) => v,
            None => Vec::new(),
        };
        self.active.insert(asset, new_active);
        self.standby.insert(asset, new_standby);
        let updated = SourceRotationSchedule { next_rotation_ledger: now.sequence + sched.rotation_interval, ..sched };
        self.schedules.insert(asset, updated);
        true
    }

    /// The active sources of `asset`.
    pub fn get_active_sources(&self, asset: u64) -> (r: Vec<u64>)
        ensures
            r@ == self.active_of(asset),
    {
        match self.active.get(&asset) {
            Some(v) => v.clone(),
            None => Vec::new(),
        }
    }

    /// The standby sources of `asset`.
    pub fn get_standby_sources(&self, asset: u64) -> (r: Vec<u64>)
        ensures
            r@ == self.standby_of(asset),
    {
        match self.standby.get(&asset) {
            Some(v) => v.clone(),
            None => Vec::new(),
        }
    }

    /// The rotation schedule of `asset`.
    pub fn get_rotation_schedule(&self, asset: u64) -> (r: Option<SourceRotationSchedule>)
        ensures
            r == self.schedule_of(asset),
    {
        match self.schedules.get(&asset) {
            Some(s) => Some(*s),
            None => None,
        }
    }

    /// Stops the rotation of `asset` (administrator only); its sets stay.
    pub fn disable_rotation(&mut self, caller: u64, asset: u64) -> (r: Result<(), ErrorCode>)
        ensures
            r == (if caller == old(self).admin { Ok(()) } else { Err::<(), ErrorCode>(ErrorCode::NotAuthorized) }),
            final(self).schedules@ == (if r.is_ok() && old(self).schedules@.contains_key(asset) {
                old(self).schedules@.insert(asset, SourceRotationSchedule { enabled: false, ..old(self).schedules@[asset] })
            } else {
                old(self).schedules@
            }),
            final(self).active@ == old(self).active@,
            final(self).standby@ == old(self).standby@,
            final(self).admin == old(self).admin,
    {
        if caller != self.admin {
            return Err(ErrorCode::NotAuthorized);
        }
        match self.schedules.get(&asset) {
            Some(s) => {
                let updated = SourceRotationSchedule { enabled: false, ..*s };
                self.schedules.insert(asset, updated);
            },
            None => {},
        }
        Ok(())
    }
}

} // verus!
