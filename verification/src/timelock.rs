//! Administrator-only governance behind a delay: an operation is proposed,
//! and can be executed once the timelock has elapsed since its proposal, or
//! cancelled before that.

use vstd::prelude::*;
use std::collections::HashMap;
use crate::multisig::{op_type_num, OperationType};
use crate::types::{ErrorCode, LedgerInfo};

verus! {

broadcast use vstd::std_specs::hash::group_hash_axioms;

/// Ledgers between proposal and execution unless configured otherwise.
pub const DEFAULT_TIMELOCK_DURATION: u32 = 10;

/// An operation waiting for its timelock.
#[derive(Clone, Debug)]
pub struct PendingOperation {
    pub id: u32,
    pub op_type: OperationType,
    pub data: Vec<u8>,
    pub proposed_ledger: u32,
}

/// One operation of a batch: its kind number and payload, as for
/// `propose_operation`.
#[derive(Clone, Debug)]
pub struct BatchOperation {
    pub op_type: u32,
    pub data: Vec<u8>,
}

/// A batch of operations waiting for its timelock.
#[derive(Clone, Debug)]
pub struct PendingBatch {
    pub id: u32,
    pub operations: Vec<BatchOperation>,
    pub proposed_ledger: u32,
}

/// Pending operations and batches by id, the delay, and the last ids
/// handed out.
pub struct Timelock {
    pub admin: u64,
    pub duration: u32,
    pub last_id: u32,
    pub pending: HashMap<u32, PendingOperation>,
    pub last_batch_id: u32,
    pub batches: HashMap<u32, PendingBatch>,
}

/// The operation kind numbered `n`, if any.
pub open spec fn op_type_of(n: u32) -> Option<OperationType> {
    if n == 0 {
        Some(OperationType::Upgrade)
    } else if n == 1 {
        Some(OperationType::SetAdmin)
    } else if n == 2 {
        Some(OperationType::SetMinSources)
    } else if n == 3 {
        Some(OperationType::SetMaxHistory)
    } else if n == 4 {
        Some(OperationType::SetResolution)
    } else if n == 5 {
        Some(OperationType::SetDecimals)
    } else if n == 6 {
        Some(OperationType::SetDescription)
    } else if n == 7 {
        Some(OperationType::SetTimestampThreshold)
    } else {
        None
    }
}

/// The operation kind numbered `n`; numbers past 7 name none.
pub fn op_type_from_u32(n: u32) -> (r: Option<OperationType>)
    ensures
        r == op_type_of(n),
        r matches Some(t) ==> op_type_num(t) == n,
{
    match n {
        0 => Some(OperationType::Upgrade),
        1 => Some(OperationType::SetAdmin),
        2 => Some(OperationType::SetMinSources),
        3 => Some(OperationType::SetMaxHistory),
        4 => Some(OperationType::SetResolution),
        5 => Some(OperationType::SetDecimals),
        6 => Some(OperationType::SetDescription),
        7 => Some(OperationType::SetTimestampThreshold),
        _ => None,
    }
}

impl Timelock {
    /// Every pending operation is stored under its own id, which is at most
    /// the last id handed out.
    pub open spec fn wf(&self) -> bool {
        &&& forall|id: u32| #[trigger] self.pending@.contains_key(id) ==> self.pending@[id].id == id && 1 <= id <= self.last_id
        &&& forall|id: u32| #[trigger] self.batches@.contains_key(id) ==> self.batches@[id].id == id && 1 <= id <= self.last_batch_id
    }

    /// A timelock administered by `admin` with the default delay and
    /// nothing pending.
    pub fn new(admin: u64) -> (r: Timelock)
        ensures
            r.wf(),
            r.admin == admin,
            r.duration == DEFAULT_TIMELOCK_DURATION,
            r.last_id == 0,
            r.pending@ == Map::<u32, PendingOperation>::empty(),
            r.last_batch_id == 0,
            r.batches@ == Map::<u32, PendingBatch>::empty(),
    {
        Timelock {
            admin,
            duration: DEFAULT_TIMELOCK_DURATION,
            last_id: 0,
            pending: HashMap::new(),
            last_batch_id: 0,
            batches: HashMap::new(),
        }
    }

    /// Proposes the operation numbered `op_type` with payload `data`; it gets
    /// the next id. A number past 7 is `InvalidOperationType`, a caller other
    /// than the administrator `NotAuthorized`.
    pub fn propose_operation(&mut self, caller: u64, op_type: u32, data: Vec<u8>, now: LedgerInfo) -> (r: Result<u32, ErrorCode>)
        requires
            old(self).wf(),
            old(self).last_id < u32::MAX,
        ensures
            final(self).batches@ == old(self).batches@,
            final(self).last_batch_id == old(self).last_batch_id,
            final(self).wf(),
            final(self).admin == old(self).admin,
            final(self).duration == old(self).duration,
            r == (if op_type_of(op_type) is None {
                Err(ErrorCode::InvalidOperationType)
            } else if caller != old(self).admin {
                Err(ErrorCode::NotAuthorized)
            } else {
                Ok::<u32, ErrorCode>((old(self).last_id + 1) as u32)
            }),
            r is Err ==> final(self).pending@ == old(self).pending@ && final(self).last_id == old(self).last_id,
            r matches Ok(id) ==> final(self).last_id == id && !old(self).pending@.contains_key(id)
                && final(self).pending@.dom() == old(self).pending@.dom().insert(id)
                && (forall|k: u32| k != id && #[trigger] old(self).pending@.contains_key(k) ==> final(self).pending@[k] == old(self).pending@[k])
                && final(self).pending@[id].op_type == op_type_of(op_type).unwrap()
                && final(self).pending@[id].data@ == data@
                && final(self).pending@[id].proposed_ledger == now.sequence,
    {
        let kind = match op_type_from_u32(op_type) {
            Some(k) => k,
            None => {
                return Err(ErrorCode::InvalidOperationType);
            },
        };
        if caller != self.admin {
            return Err(ErrorCode::NotAuthorized);
        }
        let id = self.last_id + 1;
        self.last_id = id;
        self.pending.insert(id, PendingOperation { id, op_type: kind, data, proposed_ledger: now.sequence });
        Ok(id)
    }

    /// Whether the timelock of the pending operation `id` has elapsed at `ledger`.
    pub open spec fn ready(&self, id: u32, ledger: u32) -> bool {
        ledger >= self.pending@[id].proposed_ledger + self.duration
    }

    /// Executes pending operation `op_id` once the timelock has elapsed since
    /// its proposal; it leaves the pending set and is returned for the
    /// caller to apply.
    pub fn execute_operation(&mut self, caller: u64, op_id: u32, now: LedgerInfo) -> (r: Result<PendingOperation, ErrorCode>)
        requires
            old(self).wf(),
        ensures
            final(self).batches@ == old(self).batches@,
            final(self).last_batch_id == old(self).last_batch_id,
            final(self).wf(),
            final(self).admin == old(self).admin,
            final(self).duration == old(self).duration,
            final(self).last_id == old(self).last_id,
            caller != old(self).admin ==> (r matches Err(e) && e == ErrorCode::NotAuthorized),
            caller == old(self).admin && !old(self).pending@.contains_key(op_id) ==> (r matches Err(e) && e == ErrorCode::OperationNotFound),
            caller == old(self).admin && old(self).pending@.contains_key(op_id) && !old(self).ready(op_id, now.sequence)
                ==> (r matches Err(e) && e == ErrorCode::TimelockNotReady),
            r is Err ==> final(self).pending@ == old(self).pending@,
            r is Ok <==> caller == old(self).admin && old(self).pending@.contains_key(op_id) && old(self).ready(op_id, now.sequence),
            r matches Ok(op) ==> op.id == op_id && op.op_type == old(self).pending@[op_id].op_type
                && op.data@ == old(self).pending@[op_id].data@ && op.proposed_ledger == old(self).pending@[op_id].proposed_ledger
                && final(self).pending@ == old(self).pending@.remove(op_id),
    {
        if caller != self.admin {
            return Err(ErrorCode::NotAuthorized);
        }
        let proposed: u32 = match self.pending.get(&op_id) {
            Some(op) => op.proposed_ledger,
            None => {
                return Err(ErrorCode::OperationNotFound);
            },
        };
        if (now.sequence as u64) < proposed as u64 + self.duration as u64 {
            return Err(ErrorCode::TimelockNotReady);
        }
        match self.pending.remove(&op_id) {
            Some(op) => Ok(op),
            None => Err(ErrorCode::OperationNotFound),
        }
    }

    /// Cancels pending operation `op_id` (administrator only).
    pub fn cancel_operation(&mut self, caller: u64, op_id: u32) -> (r: Result<(), ErrorCode>)
        requires
            old(self).wf(),
        ensures
            final(self).batches@ == old(self).batches@,
            final(self).last_batch_id == old(self).last_batch_id,
            final(self).wf(),
            final(self).admin == old(self).admin,
            final(self).duration == old(self).duration,
            final(self).last_id == old(self).last_id,
            r == (if caller != old(self).admin {
                Err(ErrorCode::NotAuthorized)
            } else if !old(self).pending@.contains_key(op_id) {
                Err(ErrorCode::OperationNotFound)
            } else {
                Ok::<(), ErrorCode>(())
            }),
            r is Err ==> final(self).pending@ == old(self).pending@,
            r is Ok ==> final(self).pending@ == old(self).pending@.remove(op_id),
    {
        if caller != self.admin {
            return Err(ErrorCode::NotAuthorized);
        }
        match self.pending.remove(&op_id) {
            Some(_) => Ok(()),
            None => Err(ErrorCode::OperationNotFound),
        }
    }

    /// The delay, in ledgers, between proposal and execution.
    pub fn get_timelock_duration(&self) -> (r: u32)
        ensures
            r == self.duration,
    {
        self.duration
    }

    /// Sets the delay between proposal and execution (administrator only).
    pub fn set_timelock_duration(&mut self, caller: u64, duration: u32) -> (r: Result<(), ErrorCode>)
        requires
            old(self).wf(),
        ensures
            final(self).batches@ == old(self).batches@,
            final(self).last_batch_id == old(self).last_batch_id,
            final(self).wf(),
            final(self).admin == old(self).admin,
            final(self).last_id == old(self).last_id,
            final(self).pending@ == old(self).pending@,
            r == (if caller != old(self).admin { Err(ErrorCode::NotAuthorized) } else { Ok::<(), ErrorCode>(()) }),
            final(self).duration == if r is Ok { duration } else { old(self).duration },
    {
        if caller != self.admin {
            return Err(ErrorCode::NotAuthorized);
        }
        self.duration = duration;
        Ok(())
    }
}

/// Whether every operation of `ops` names a known kind.
pub open spec fn kinds_valid(ops: Seq<BatchOperation>) -> bool {
    forall|i: int| 0 <= i < ops.len() ==> (#[trigger] op_type_of(ops[i].op_type)) is Some
}

/// Whether every operation of `ops` names a known kind.
pub fn all_kinds_valid(ops: &Vec<BatchOperation>) -> (r: bool)
    ensures
        r == kinds_valid(ops@),
{
    let mut i: usize = 0;
    while i < ops.len()
        invariant
            0 <= i <= ops.len(),
            forall|j: int| 0 <= j < i ==> (#[trigger] op_type_of(ops@[j].op_type)) is Some,
        decreases ops.len() - i,
    {
        if op_type_from_u32(ops[i].op_type).is_none() {
            return false;
        }
        i = i + 1;
    }
    true
}

impl Timelock {
    /// Proposes `operations` as one batch, executable together once the
    /// timelock has elapsed; it gets the next batch id. A caller other than
    /// the administrator is `NotAuthorized`; an operation kind past 7 is
    /// `InvalidOperationType`.
    pub fn propose_batch(&mut self, caller: u64, operations: Vec<BatchOperation>, now: LedgerInfo) -> (r: Result<u32, ErrorCode>)
        requires
            old(self).wf(),
            old(self).last_batch_id < u32::MAX,
        ensures
            final(self).wf(),
            final(self).admin == old(self).admin,
            final(self).duration == old(self).duration,
            final(self).pending@ == old(self).pending@,
            final(self).last_id == old(self).last_id,
            r == (if caller != old(self).admin {
                Err(ErrorCode::NotAuthorized)
            } else if !kinds_valid(operations@) {
                Err(ErrorCode::InvalidOperationType)
            } else {
                Ok::<u32, ErrorCode>((old(self).last_batch_id + 1) as u32)
            }),
            r is Err ==> final(self).batches@ == old(self).batches@ && final(self).last_batch_id == old(self).last_batch_id,
            r matches Ok(id) ==> final(self).last_batch_id == id && !old(self).batches@.contains_key(id)
                && final(self).batches@ == old(self).batches@.insert(id,
                    PendingBatch { id, operations, proposed_ledger: now.sequence }),
    {
        if caller != self.admin {
            return Err(ErrorCode::NotAuthorized);
        }
        if !all_kinds_valid(&operations) {
            return Err(ErrorCode::InvalidOperationType);
        }
        let id = self.last_batch_id + 1;
        self.last_batch_id = id;
        self.batches.insert(id, PendingBatch { id, operations, proposed_ledger: now.sequence });
        Ok(id)
    }

    /// Whether the timelock of the pending batch `id` has elapsed at `ledger`.
    pub open spec fn batch_ready(&self, id: u32, ledger: u32) -> bool {
        ledger >= self.batches@[id].proposed_ledger + self.duration
    }

    /// Executes pending batch `batch_id` once the timelock has elapsed since
    /// its proposal; it leaves the pending set and is returned for the
    /// caller to apply as a whole.
    pub fn execute_batch(&mut self, caller: u64, batch_id: u32, now: LedgerInfo) -> (r: Result<PendingBatch, ErrorCode>)
        requires
            old(self).wf(),
        ensures
            final(self).wf(),
            final(self).admin == old(self).admin,
            final(self).duration == old(self).duration,
            final(self).pending@ == old(self).pending@,
            final(self).last_id == old(self).last_id,
            final(self).last_batch_id == old(self).last_batch_id,
            caller != old(self).admin ==> (r matches Err(e) && e == ErrorCode::NotAuthorized),
            caller == old(self).admin && !old(self).batches@.contains_key(batch_id) ==> (r matches Err(e) && e == ErrorCode::OperationNotFound),
            caller == old(self).admin && old(self).batches@.contains_key(batch_id) && !old(self).batch_ready(batch_id, now.sequence)
                ==> (r matches Err(e) && e == ErrorCode::TimelockNotReady),
            r is Err ==> final(self).batches@ == old(self).batches@,
            r is Ok <==> caller == old(self).admin && old(self).batches@.contains_key(batch_id) && old(self).batch_ready(batch_id, now.sequence),
            r matches Ok(b) ==> b == old(self).batches@[batch_id] && final(self).batches@ == old(self).batches@.remove(batch_id),
    {
        if caller != self.admin {
            return Err(ErrorCode::NotAuthorized);
        }
        let proposed: u32 = match self.batches.get(&batch_id) {
            Some(b) => b.proposed_ledger,
            None => {
                return Err(ErrorCode::OperationNotFound);
            },
        };
        if (now.sequence as u64) < proposed as u64 + self.duration as u64 {
            return Err(ErrorCode::TimelockNotReady);
        }
        match self.batches.remove(&batch_id) {
            Some(b) => Ok(b),
            None => Err(ErrorCode::OperationNotFound),
        }
    }

    /// Cancels pending batch `batch_id` (administrator only).
    pub fn cancel_batch(&mut self, caller: u64, batch_id: u32) -> (r: Result<(), ErrorCode>)
        requires
            old(self).wf(),
        ensures
            final(self).wf(),
            final(self).admin == old(self).admin,
            final(self).duration == old(self).duration,
            final(self).pending@ == old(self).pending@,
            final(self).last_id == old(self).last_id,
            final(self).last_batch_id == old(self).last_batch_id,
            r == (if caller != old(self).admin {
                Err(ErrorCode::NotAuthorized)
            } else if !old(self).batches@.contains_key(batch_id) {
                Err(ErrorCode::OperationNotFound)
            } else {
                Ok::<(), ErrorCode>(())
            }),
            r is Err ==> final(self).batches@ == old(self).batches@,
            r is Ok ==> final(self).batches@ == old(self).batches@.remove(batch_id),
    {
        if caller != self.admin {
            return Err(ErrorCode::NotAuthorized);
        }
        match self.batches.remove(&batch_id) {
            Some(_) => Ok(()),
            None => Err(ErrorCode::OperationNotFound),
        }
    }
}

} // verus!
