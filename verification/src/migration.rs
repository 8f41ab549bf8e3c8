//! Incremental storage migration between schema versions: each call
//! processes one batch of items and keeps a cursor until the migration
//! completes and the stored version is raised.

use vstd::prelude::*;
use crate::oracle::PriceOracleContract;
use crate::types::{AggregatePrice, ErrorCode, LedgerInfo};

verus! {

broadcast use vstd::std_specs::hash::group_hash_axioms;

/// The schema version this library targets.
pub const CURRENT_VERSION: u32 = 2;
/// Items per call when no batch size is given.
pub const DEFAULT_BATCH_SIZE: u32 = 50;

/// Progress of a migration.
#[derive(Clone, Copy, Debug, PartialEq, Eq, Structural)]
pub enum MigrationStatus {
    InProgress,
}

/// A running migration.
#[derive(Clone, Copy, Debug, PartialEq, Eq, Structural)]
pub struct MigrationState {
    pub from_version: u32,
    pub to_version: u32,
    pub cursor: u32,
    pub started_ledger: u32,
    pub status: MigrationStatus,
}

/// The stored schema version and the migration in progress, if any.
pub struct StorageMigration {
    /// The stored version; `None` for storage written before versions were
    /// recorded, which counts as version 1.
    pub version: Option<u32>,
    pub state: Option<MigrationState>,
}

/// The aggregate a migration writes for an asset that has none.
pub open spec fn zero_aggregate(decimals: u32) -> AggregatePrice {
    AggregatePrice { price: 0, timestamp: 0, num_sources: 0, decimals, is_override: false, version: 0 }
}

/// End of the batch starting at `cursor` over `total` items.
pub open spec fn batch_end(cursor: u32, batch: u32, total: nat) -> int {
    if cursor + batch < total { cursor + batch } else { total as int }
}

impl PriceOracleContract {
    /// Everything but the published aggregates is unchanged.
    pub open spec fn same_but_aggregates(&self, other: &PriceOracleContract) -> bool {
        &&& self.config == other.config
        &&& self.description@ == other.description@
        &&& self.sources@ == other.sources@
        &&& self.assets@ == other.assets@
        &&& self.submissions@ == other.submissions@
        &&& self.last_submission@ == other.last_submission@
        &&& self.non_compliant@ == other.non_compliant@
        &&& self.histories@ == other.histories@
        &&& self.overrides@ == other.overrides@
        &&& self.asset_min_interval@ == other.asset_min_interval@
        &&& self.asset_resolution@ == other.asset_resolution@
        &&& self.price_bounds@ == other.price_bounds@
        &&& self.tripped@ == other.tripped@
        &&& self.paused_assets@ == other.paused_assets@
        &&& self.last_trigger@ == other.last_trigger@
        &&& self.nonces@ == other.nonces@
        &&& self.source_submission_counts@ == other.source_submission_counts@
        &&& self.total_submissions == other.total_submissions
        &&& self.compaction_meta@ == other.compaction_meta@
        &&& self.commits@ == other.commits@
    }

    /// Aggregates after the version 1 to 2 step over the registered assets
    /// at positions `cursor..end`: those without an aggregate get a zero one.
    pub open spec fn v2_aggregates_after(&self, after: &PriceOracleContract, cursor: int, end: int) -> bool {
        forall|a: u64| #[trigger] after.aggregate(a) == if self.aggregate(a) is None && self.assets@.subrange(cursor, end).contains(a) {
            Some(zero_aggregate(self.config.decimals))
        } else {
            self.aggregate(a)
        }
    }

    /// One batch of the version 1 to 2 migration: every registered asset from
    /// `cursor` on, at most `batch` of them, that has no aggregate gets a zero
    /// one. Returns the new cursor and whether all assets are done.
    pub fn migrate_v1_to_v2(&mut self, cursor: u32, batch: u32) -> (r: (u32, bool))
        requires
            old(self).wf(),
            old(self).assets@.len() <= u32::MAX,
            cursor + batch <= u32::MAX,
        ensures
            final(self).wf(),
            cursor >= old(self).assets@.len() ==> r == (cursor, true) && final(self).aggregates@ == old(self).aggregates@,
            cursor < old(self).assets@.len() ==> ({
                let end = batch_end(cursor, batch, old(self).assets@.len());
                &&& r == (end as u32, end >= old(self).assets@.len())
                &&& old(self).v2_aggregates_after(final(self), cursor as int, end)
            }),
            final(self).same_but_aggregates(old(self)),
    {
        let total = self.assets.len() as u32;
        if cursor >= total {
            return (cursor, true);
        }
        let end: u32 = if cursor + batch < total { cursor + batch } else { total };
        let mut i: u32 = cursor;
        while i < end
            invariant
                cursor <= i <= end <= total,
                total == self.assets@.len(),
                self.wf(),
                self.same_but_aggregates(old(self)),
                old(self).v2_aggregates_after(self, cursor as int, i as int),
            decreases end - i,
        {
            let a = self.assets[i as usize];
            let ghost before = *self;
            if self.aggregates.get(&a).is_none() {
                let z = AggregatePrice { price: 0, timestamp: 0, num_sources: 0, decimals: self.config.decimals, is_override: false, version: 0 };
                self.aggregates.insert(a, z);
            }
            proof {
                let s0 = old(self).assets@.subrange(cursor as int, i as int);
                let s1 = old(self).assets@.subrange(cursor as int, i + 1);
                assert(s1 =~= s0.push(a));
                assert forall|x: u64| #[trigger] self.aggregate(x) == if old(self).aggregate(x) is None && s1.contains(x) {
                    Some(zero_aggregate(old(self).config.decimals))
                } else {
                    old(self).aggregate(x)
                } by {
                    assert(before.aggregate(x) == if old(self).aggregate(x) is None && s0.contains(x) {
                        Some(zero_aggregate(old(self).config.decimals))
                    } else {
                        old(self).aggregate(x)
                    });
                    if s1.contains(x) && !s0.contains(x) {
                        let k = choose|k: int| 0 <= k < s1.len() && s1[k] == x;
                        if k < s0.len() {
                            assert(s0[k] == x);
                        }
                        assert(x == a);
                    }
                    if s0.contains(x) {
                        let k = choose|k: int| 0 <= k < s0.len() && s0[k] == x;
                        assert(s1[k] == x);
                    }
                    if x == a {
                        assert(s1[s1.len() - 1] == a);
                        assert(s1.contains(a));
                    } else {
                        assert(self.aggregate(x) == before.aggregate(x));
                    }
                }
            }
            i = i + 1;
        }
        (end, end >= total)
    }
}

impl StorageMigration {
    /// The stored schema version (1 when none was recorded).
    pub open spec fn version_spec(&self) -> u32 {
        match self.version {
            Some(v) => v,
            None => 1,
        }
    }

    /// The stored schema version (1 when none was recorded).
    pub fn get_storage_version(&self) -> (r: u32)
        ensures
            r == self.version_spec(),
    {
        match self.version {
            Some(v) => v,
            None => 1,
        }
    }

    /// The migration in progress, if any.
    pub fn get_migration_state(&self) -> (r: Option<MigrationState>)
        ensures
            r == self.state,
    {
        self.state
    }

    /// Starts or resumes the migration to `CURRENT_VERSION` (administrator
    /// only), processing at most `batch_size` items (50 when 0). Storage
    /// already at or past the current version keeps its recorded version; a
    /// finished migration raises the version and clears the state, an
    /// unfinished one keeps its cursor.
    pub fn migrate_storage(&mut self, contract: &mut PriceOracleContract, caller: u64, batch_size: u32, now: LedgerInfo) -> (r: Result<(), ErrorCode>)
        requires
            old(contract).wf(),
            old(contract).assets@.len() <= u32::MAX,
            ({
                let b = if batch_size == 0 { DEFAULT_BATCH_SIZE } else { batch_size };
                let c: u32 = match old(self).state { Some(s) => s.cursor, None => 0 };
                c + b <= u32::MAX
            }),
        ensures
            final(contract).wf(),
            caller != old(contract).config.admin ==> r == Err::<(), ErrorCode>(ErrorCode::NotAuthorized)
                && final(self).version == old(self).version && final(self).state == old(self).state
                && final(contract).config == old(contract).config && final(contract).same_data(old(contract)),
            caller == old(contract).config.admin ==> r is Ok,
            caller == old(contract).config.admin && old(self).state is None && old(self).version_spec() >= CURRENT_VERSION
                ==> final(self).version == old(self).version && final(self).state is None
                    && final(contract).config == old(contract).config && final(contract).same_data(old(contract)),
            caller == old(contract).config.admin && !(old(self).state is None && old(self).version_spec() >= CURRENT_VERSION) ==> ({
                let st = match old(self).state {
                    Some(s) => s,
                    None => MigrationState { from_version: old(self).version_spec(), to_version: CURRENT_VERSION, cursor: 0,
                        started_ledger: now.sequence, status: MigrationStatus::InProgress },
                };
                let b = if batch_size == 0 { DEFAULT_BATCH_SIZE } else { batch_size };
                let total = old(contract).assets@.len();
                let v12 = st.from_version == 1 && st.to_version == 2;
                let end: int = if v12 && st.cursor < total { batch_end(st.cursor, b, total) } else { st.cursor as int };
                let done = !v12 || end >= total;
                &&& done ==> final(self).version == Some(st.to_version) && final(self).state is None
                &&& !done ==> final(self).version == old(self).version && final(self).state == Some(MigrationState { cursor: end as u32, ..st })
                &&& v12 && st.cursor < total ==> old(contract).v2_aggregates_after(final(contract), st.cursor as int, end)
                &&& !(v12 && st.cursor < total) ==> final(contract).aggregates@ == old(contract).aggregates@
            }),
            final(contract).same_but_aggregates(old(contract)),
    {
        if caller != contract.config.admin {
            return Err(ErrorCode::NotAuthorized);
        }
        let batch = if batch_size == 0 { DEFAULT_BATCH_SIZE } else { batch_size };
        let state = match self.state {
            Some(s) => s,
            None => {
                let from = self.get_storage_version();
                if from >= CURRENT_VERSION {
                    return Ok(());
                }
                MigrationState { from_version: from, to_version: CURRENT_VERSION, cursor: 0, started_ledger: now.sequence, status: MigrationStatus::InProgress }
            },
        };
        let (new_cursor, done) = if state.from_version == 1 && state.to_version == 2 {
            contract.migrate_v1_to_v2(state.cursor, batch)
        } else {
            (state.cursor, true)
        };
        if done {
            self.version = Some(state.to_version);
            self.state = None;
        } else {
            self.state = Some(MigrationState { cursor: new_cursor, ..state });
        }
        Ok(())
    }
}

} // verus!
