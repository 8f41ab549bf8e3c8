//! N-of-M multi-signature governance with an ordered timelock: governors
//! propose operations into a first-in-first-out queue, approve them, and
//! only the head of the queue may execute, once it has its quorum and the
//! timelock since the quorum was reached has elapsed.

use vstd::prelude::*;
use crate::admin::without;
use crate::types::{ErrorCode, LedgerInfo};

verus! {

/// Default number of approvals an operation needs.
pub const DEFAULT_REQUIRED_APPROVALS: u32 = 1;
/// Default timelock, in ledgers, between quorum and execution.
pub const DEFAULT_TIMELOCK_LEDGERS: u32 = 10;

/// Kinds of governance operations.
#[derive(Clone, Copy, Debug, PartialEq, Eq, Structural)]
pub enum OperationType {
    Upgrade,
    SetAdmin,
    SetMinSources,
    SetMaxHistory,
    SetResolution,
    SetDecimals,
    SetDescription,
    SetTimestampThreshold,
}

/// Number of an operation kind, as events report it.
pub open spec fn op_type_num(op_type: OperationType) -> u32 {
    match op_type {
        OperationType::Upgrade => 0,
        OperationType::SetAdmin => 1,
        OperationType::SetMinSources => 2,
        OperationType::SetMaxHistory => 3,
        OperationType::SetResolution => 4,
        OperationType::SetDecimals => 5,
        OperationType::SetDescription => 6,
        OperationType::SetTimestampThreshold => 7,
    }
}

/// Number of an operation kind, as events report it.
pub fn op_type_to_u32(op_type: &OperationType) -> (r: u32)
    ensures
        r == op_type_num(*op_type),
        r <= 7,
{
    match op_type {
        OperationType::Upgrade => 0,
        OperationType::SetAdmin => 1,
        OperationType::SetMinSources => 2,
        OperationType::SetMaxHistory => 3,
        OperationType::SetResolution => 4,
        OperationType::SetDecimals => 5,
        OperationType::SetDescription => 6,
        OperationType::SetTimestampThreshold => 7,
    }
}

/// A proposed operation awaiting approvals and execution.
#[derive(Clone, Debug)]
pub struct MultiSigOperation {
    pub id: u32,
    pub op_type: OperationType,
    pub proposed_by: u64,
    pub proposed_ledger: u32,
    pub data: Vec<u8>,
    pub approvals: Vec<u64>,
    pub required_approvals: u32,
    /// Ledger at which the quorum was reached; 0 while it is not.
    pub timelock_start_ledger: u32,
}

/// The governance state: governors, threshold and the operation queue.
pub struct MultiSig {
    pub admin: u64,
    pub governors: Vec<u64>,
    pub required_approvals: u32,
    pub op_count: u32,
    /// Pending operations in proposal order; the first is the queue head.
    pub queue: Vec<MultiSigOperation>,
    pub timelock_duration: u32,
}

/// Position of the operation `id` in `q` (-1 when absent).
pub open spec fn op_index(q: Seq<MultiSigOperation>, id: u32) -> int
    decreases q.len(),
{
    if q.len() == 0 {
        -1
    } else if q.last().id == id {
        q.len() - 1
    } else {
        op_index(q.drop_last(), id)
    }
}

pub proof fn lemma_op_index(q: Seq<MultiSigOperation>, id: u32)
    ensures
        -1 <= op_index(q, id) < q.len(),
        op_index(q, id) >= 0 ==> q[op_index(q, id)].id == id,
        op_index(q, id) == -1 ==> forall|i: int| 0 <= i < q.len() ==> #[trigger] q[i].id != id,
    decreases q.len(),
{
    if q.len() > 0 && q.last().id != id {
        lemma_op_index(q.drop_last(), id);
        if op_index(q, id) == -1 {
            assert forall|i: int| 0 <= i < q.len() implies #[trigger] q[i].id != id by {
                if i < q.len() - 1 {
                    assert(q[i] == q.drop_last()[i]);
                }
            }
        }
    }
}

/// `q` with the element at `i` removed.
pub open spec fn remove_at(q: Seq<MultiSigOperation>, i: int) -> Seq<MultiSigOperation> {
    q.subrange(0, i) + q.subrange(i + 1, q.len() as int)
}

/// Index of the operation `id` in the queue.
fn find_op(q: &Vec<MultiSigOperation>, id: u32) -> (r: Option<usize>)
    ensures
        r is None <==> op_index(q@, id) == -1,
        r matches Some(i) ==> i == op_index(q@, id),
{
    let mut i: usize = q.len();
    assert(q@.subrange(0, i as int) =~= q@);
    while i > 0
        invariant
            i <= q.len(),
            op_index(q@.subrange(0, i as int), id) == op_index(q@, id),
        decreases i,
    {
        proof {
            assert(q@.subrange(0, i as int).drop_last() =~= q@.subrange(0, i - 1));
            assert(q@.subrange(0, i as int).last() == q@[i - 1]);
        }
        if q[i - 1].id == id {
            return Some(i - 1);
        }
        i = i - 1;
    }
    None
}

impl MultiSig {
    /// Queue ids are positive, strictly increasing, and at most the count
    /// of proposals made.
    pub open spec fn wf(&self) -> bool {
        &&& forall|i: int, j: int| 0 <= i < j < self.queue@.len() ==> self.queue@[i].id < self.queue@[j].id
        &&& forall|i: int| 0 <= i < self.queue@.len() ==> 0 < #[trigger] self.queue@[i].id <= self.op_count
    }

    /// Id of the queue head, 0 for an empty queue.
    pub open spec fn head_id(&self) -> u32 {
        if self.queue@.len() == 0 { 0 } else { self.queue@[0].id }
    }

    pub open spec fn is_governor(&self, who: u64) -> bool {
        self.governors@.contains(who)
    }

    /// Governance administered by `admin`, with no governors yet.
    pub fn new(admin: u64) -> (r: MultiSig)
        ensures
            r.wf(),
            r.admin == admin,
            r.governors@.len() == 0,
            r.queue@.len() == 0,
            r.required_approvals == DEFAULT_REQUIRED_APPROVALS,
            r.timelock_duration == DEFAULT_TIMELOCK_LEDGERS,
            r.op_count == 0,
    {
        MultiSig {
            admin,
            governors: Vec::new(),
            required_approvals: DEFAULT_REQUIRED_APPROVALS,
            op_count: 0,
            queue: Vec::new(),
            timelock_duration: DEFAULT_TIMELOCK_LEDGERS,
        }
    }

    /// Whether `who` is a governor.
    pub fn check_governor(&self, who: u64) -> (r: bool)
        ensures
            r == self.is_governor(who),
    {
        crate::admin::contains_u64(&self.governors, who)
    }

    /// Replaces the governor set and the approval threshold (administrator
    /// only); the threshold must lie in `1..=governors.len()`.
    pub fn set_governors(&mut self, caller: u64, governors: Vec<u64>, required: u32) -> (r: Result<(), ErrorCode>)
        requires
            old(self).wf(),
        ensures
            final(self).wf(),
            r == (if caller != old(self).admin {
                Err(ErrorCode::NotAuthorized)
            } else if required == 0 || required > governors@.len() {
                Err(ErrorCode::InvalidConfiguration)
            } else {
                Ok::<(), ErrorCode>(())
            }),
            r is Ok ==> final(self).governors@ == governors@ && final(self).required_approvals == required,
            r is Err ==> final(self).governors@ == old(self).governors@ && final(self).required_approvals == old(self).required_approvals,
            final(self).queue@ == old(self).queue@,
            final(self).admin == old(self).admin,
            final(self).op_count == old(self).op_count,
            final(self).timelock_duration == old(self).timelock_duration,
    {
        if caller != self.admin {
            return Err(ErrorCode::NotAuthorized);
        }
        if required == 0 || required as usize > governors.len() {
            return Err(ErrorCode::InvalidConfiguration);
        }
        self.governors = governors;
        self.required_approvals = required;
        Ok(())
    }

    /// A governor proposes an operation; it joins the end of the queue with
    /// no approvals and the current threshold, and its id is returned.
    pub fn propose_ms_operation(&mut self, proposer: u64, op_type: OperationType, data: Vec<u8>, now: LedgerInfo) -> (r: Result<u32, ErrorCode>)
        requires
            old(self).wf(),
            old(self).op_count < u32::MAX,
        ensures
            final(self).wf(),
            !old(self).is_governor(proposer) ==> r == Err::<u32, ErrorCode>(ErrorCode::NotAuthorized) && final(self).queue@ == old(self).queue@
                && final(self).op_count == old(self).op_count,
            old(self).is_governor(proposer) ==> r == Ok::<u32, ErrorCode>((old(self).op_count + 1) as u32)
                && final(self).op_count == old(self).op_count + 1
                && final(self).queue@.len() == old(self).queue@.len() + 1
                && final(self).queue@.subrange(0, old(self).queue@.len() as int) == old(self).queue@
                && final(self).queue@.last().id == old(self).op_count + 1
                && final(self).queue@.last().op_type == op_type
                && final(self).queue@.last().proposed_by == proposer
                && final(self).queue@.last().proposed_ledger == now.sequence
                && final(self).queue@.last().data@ == data@
                && final(self).queue@.last().approvals@.len() == 0
                && final(self).queue@.last().required_approvals == old(self).required_approvals
                && final(self).queue@.last().timelock_start_ledger == 0,
            final(self).governors@ == old(self).governors@,
            final(self).admin == old(self).admin,
            final(self).required_approvals == old(self).required_approvals,
            final(self).timelock_duration == old(self).timelock_duration,
    {
        if !self.check_governor(proposer) {
            return Err(ErrorCode::NotAuthorized);
        }
        let id = self.op_count + 1;
        self.op_count = id;
        let op = MultiSigOperation {
            id,
            op_type,
            proposed_by: proposer,
            proposed_ledger: now.sequence,
            data,
            approvals: Vec::new(),
            required_approvals: self.required_approvals,
            timelock_start_ledger: 0,
        };
        self.queue.push(op);
        assert(self.queue@.subrange(0, old(self).queue@.len() as int) =~= old(self).queue@);
        Ok(id)
    }

    /// A governor approves operation `op_id`; the approval that reaches the
    /// quorum starts the timelock.
    pub fn approve_operation(&mut self, governor: u64, op_id: u32, now: LedgerInfo) -> (r: Result<(), ErrorCode>)
        requires
            old(self).wf(),
        ensures
            final(self).wf(),
            r == (if !old(self).is_governor(governor) {
                Err(ErrorCode::NotAuthorized)
            } else if op_index(old(self).queue@, op_id) == -1 {
                Err(ErrorCode::OperationNotFound)
            } else if old(self).queue@[op_index(old(self).queue@, op_id)].approvals@.contains(governor) {
                Err(ErrorCode::AlreadyApproved)
            } else {
                Ok::<(), ErrorCode>(())
            }),
            r is Err ==> final(self).queue@ == old(self).queue@,
            r is Ok ==> ({
                let i = op_index(old(self).queue@, op_id);
                let op = old(self).queue@[i];
                let approvals = op.approvals@.push(governor);
                &&& final(self).queue@.len() == old(self).queue@.len()
                &&& forall|j: int| 0 <= j < old(self).queue@.len() && j != i ==> #[trigger] final(self).queue@[j] == old(self).queue@[j]
                &&& final(self).queue@[i].approvals@ == approvals
                &&& final(self).queue@[i].timelock_start_ledger == if approvals.len() >= op.required_approvals && op.timelock_start_ledger == 0 {
                    now.sequence
                } else {
                    op.timelock_start_ledger
                }
                &&& final(self).queue@[i].id == op.id
                &&& final(self).queue@[i].op_type == op.op_type
                &&& final(self).queue@[i].required_approvals == op.required_approvals
                &&& final(self).queue@[i].proposed_by == op.proposed_by
                &&& final(self).queue@[i].data@ == op.data@
            }),
            final(self).governors@ == old(self).governors@,
            final(self).admin == old(self).admin,
            final(self).op_count == old(self).op_count,
            final(self).required_approvals == old(self).required_approvals,
            final(self).timelock_duration == old(self).timelock_duration,
    {
        if !self.check_governor(governor) {
            return Err(ErrorCode::NotAuthorized);
        }
        let i = match find_op(&self.queue, op_id) {
            Some(i) => i,
            None => {
                return Err(ErrorCode::OperationNotFound);
            },
        };
        proof {
            lemma_op_index(self.queue@, op_id);
        }
        let mut op = self.queue[i].clone_op();
        if crate::admin::contains_u64(&op.approvals, governor) {
            return Err(ErrorCode::AlreadyApproved);
        }
        op.approvals.push(governor);
        if op.approvals.len() >= op.required_approvals as usize && op.timelock_start_ledger == 0 {
            op.timelock_start_ledger = now.sequence;
        }
        self.queue.set(i, op);
        Ok(())
    }

    /// A governor withdraws its approval of `op_id`; dropping below the
    /// quorum stops the timelock.
    pub fn retract_approval(&mut self, governor: u64, op_id: u32) -> (r: Result<(), ErrorCode>)
        requires
            old(self).wf(),
        ensures
            final(self).wf(),
            r == (if !old(self).is_governor(governor) {
                Err(ErrorCode::NotAuthorized)
            } else if op_index(old(self).queue@, op_id) == -1 {
                Err(ErrorCode::OperationNotFound)
            } else if !old(self).queue@[op_index(old(self).queue@, op_id)].approvals@.contains(governor) {
                Err(ErrorCode::ApprovalNotFound)
            } else {
                Ok::<(), ErrorCode>(())
            }),
            r is Err ==> final(self).queue@ == old(self).queue@,
            r is Ok ==> ({
                let i = op_index(old(self).queue@, op_id);
                let op = old(self).queue@[i];
                let approvals = without(op.approvals@, governor);
                &&& final(self).queue@.len() == old(self).queue@.len()
                &&& forall|j: int| 0 <= j < old(self).queue@.len() && j != i ==> #[trigger] final(self).queue@[j] == old(self).queue@[j]
                &&& final(self).queue@[i].approvals@ == approvals
                &&& final(self).queue@[i].timelock_start_ledger == if approvals.len() < op.required_approvals {
                    0
                } else {
                    op.timelock_start_ledger
                }
                &&& final(self).queue@[i].id == op.id
                &&& final(self).queue@[i].op_type == op.op_type
                &&& final(self).queue@[i].required_approvals == op.required_approvals
            }),
            final(self).governors@ == old(self).governors@,
            final(self).admin == old(self).admin,
            final(self).op_count == old(self).op_count,
            final(self).required_approvals == old(self).required_approvals,
            final(self).timelock_duration == old(self).timelock_duration,
    {
        if !self.check_governor(governor) {
            return Err(ErrorCode::NotAuthorized);
        }
        let i = match find_op(&self.queue, op_id) {
            Some(i) => i,
            None => {
                return Err(ErrorCode::OperationNotFound);
            },
        };
        proof {
            lemma_op_index(self.queue@, op_id);
        }
        let mut op = self.queue[i].clone_op();
        if !crate::admin::contains_u64(&op.approvals, governor) {
            return Err(ErrorCode::ApprovalNotFound);
        }
        let ghost before = op.approvals@;
        op.approvals = crate::admin::remove_all(&op.approvals, governor);
        if op.approvals.len() < op.required_approvals as usize {
            op.timelock_start_ledger = 0;
        }
        self.queue.set(i, op);
        Ok(())
    }

    /// Outcome of the checks on executing `op_id` at `now`.
    pub open spec fn execute_check(&self, executor: u64, op_id: u32, now: LedgerInfo) -> Result<(), ErrorCode> {
        if executor != self.admin && !self.is_governor(executor) {
            Err(ErrorCode::NotAuthorized)
        } else if self.head_id() != op_id {
            Err(ErrorCode::MsNotQueueHead)
        } else if self.queue@.len() == 0 {
            Err(ErrorCode::OperationNotFound)
        } else if self.queue@[0].approvals@.len() < self.queue@[0].required_approvals {
            Err(ErrorCode::MsQuorumNotReached)
        } else if self.queue@[0].timelock_start_ledger == 0 {
            Err(ErrorCode::TimelockNotReady)
        } else if now.sequence - self.queue@[0].timelock_start_ledger < self.timelock_duration {
            Err(ErrorCode::TimelockNotReady)
        } else {
            Ok(())
        }
    }

    /// Executes the queue head `op_id` once it has its quorum and the
    /// timelock has elapsed; the queue advances to the next operation and the
    /// executed one is returned.
    pub fn execute_ms_operation(&mut self, executor: u64, op_id: u32, now: LedgerInfo) -> (r: Result<MultiSigOperation, ErrorCode>)
        requires
            old(self).wf(),
            old(self).queue@.len() > 0 ==> old(self).queue@[0].timelock_start_ledger <= now.sequence,
        ensures
            final(self).wf(),
            r is Err <==> old(self).execute_check(executor, op_id, now) is Err,
            r matches Err(e) ==> old(self).execute_check(executor, op_id, now) == Err::<(), ErrorCode>(e)
                && final(self).queue@ == old(self).queue@,
            r matches Ok(op) ==> op.id == op_id && final(self).queue@ == old(self).queue@.drop_first()
                && op.op_type == old(self).queue@[0].op_type && op.data@ == old(self).queue@[0].data@,
            final(self).governors@ == old(self).governors@,
            final(self).admin == old(self).admin,
            final(self).op_count == old(self).op_count,
            final(self).required_approvals == old(self).required_approvals,
            final(self).timelock_duration == old(self).timelock_duration,
    {
        if executor != self.admin && !self.check_governor(executor) {
            return Err(ErrorCode::NotAuthorized);
        }
        let head: u32 = if self.queue.len() == 0 { 0 } else { self.queue[0].id };
        if head != op_id {
            return Err(ErrorCode::MsNotQueueHead);
        }
        if self.queue.len() == 0 {
            return Err(ErrorCode::OperationNotFound);
        }
        if self.queue[0].approvals.len() < self.queue[0].required_approvals as usize {
            return Err(ErrorCode::MsQuorumNotReached);
        }
        if self.queue[0].timelock_start_ledger == 0 {
            return Err(ErrorCode::TimelockNotReady);
        }
        if now.sequence - self.queue[0].timelock_start_ledger < self.timelock_duration {
            return Err(ErrorCode::TimelockNotReady);
        }
        let op = self.queue.remove(0);
        proof {
            assert(self.queue@ =~= old(self).queue@.drop_first());
            assert forall|i: int, j: int| 0 <= i < j < self.queue@.len() implies self.queue@[i].id < self.queue@[j].id by {
                assert(self.queue@[i] == old(self).queue@[i + 1]);
                assert(self.queue@[j] == old(self).queue@[j + 1]);
            }
            assert forall|i: int| 0 <= i < self.queue@.len() implies 0 < #[trigger] self.queue@[i].id <= self.op_count by {
                assert(self.queue@[i] == old(self).queue@[i + 1]);
            }
        }
        Ok(op)
    }

    /// Cancels pending operation `op_id` (administrator or governor); the
    /// queue keeps the order of the others.
    pub fn cancel_ms_operation(&mut self, canceller: u64, op_id: u32) -> (r: Result<(), ErrorCode>)
        requires
            old(self).wf(),
        ensures
            final(self).wf(),
            r == (if canceller != old(self).admin && !old(self).is_governor(canceller) {
                Err(ErrorCode::NotAuthorized)
            } else if op_index(old(self).queue@, op_id) == -1 {
                Err(ErrorCode::OperationNotFound)
            } else {
                Ok::<(), ErrorCode>(())
            }),
            r is Err ==> final(self).queue@ == old(self).queue@,
            r is Ok ==> final(self).queue@ == remove_at(old(self).queue@, op_index(old(self).queue@, op_id)),
            final(self).governors@ == old(self).governors@,
            final(self).admin == old(self).admin,
            final(self).op_count == old(self).op_count,
            final(self).required_approvals == old(self).required_approvals,
            final(self).timelock_duration == old(self).timelock_duration,
    {
        if canceller != self.admin && !self.check_governor(canceller) {
            return Err(ErrorCode::NotAuthorized);
        }
        let i = match find_op(&self.queue, op_id) {
            Some(i) => i,
            None => {
                return Err(ErrorCode::OperationNotFound);
            },
        };
        proof {
            lemma_op_index(self.queue@, op_id);
        }
        self.queue.remove(i);
        proof {
            let q0 = old(self).queue@;
            assert(self.queue@ =~= remove_at(q0, i as int));
            assert forall|a: int| 0 <= a < self.queue@.len() implies #[trigger] self.queue@[a] == (if a < i { q0[a] } else { q0[a + 1] }) by {}
            assert forall|a: int, b: int| 0 <= a < b < self.queue@.len() implies self.queue@[a].id < self.queue@[b].id by {
                assert(self.queue@[a] == (if a < i { q0[a] } else { q0[a + 1] }));
                assert(self.queue@[b] == (if b < i { q0[b] } else { q0[b + 1] }));
            }
            assert forall|a: int| 0 <= a < self.queue@.len() implies 0 < #[trigger] self.queue@[a].id <= self.op_count by {
                assert(self.queue@[a] == (if a < i { q0[a] } else { q0[a + 1] }));
            }
        }
        Ok(())
    }

    /// The pending operation `op_id`.
    pub fn get_ms_operation(&self, op_id: u32) -> (r: Result<MultiSigOperation, ErrorCode>)
        ensures
            op_index(self.queue@, op_id) == -1 ==> r == Err::<MultiSigOperation, ErrorCode>(ErrorCode::OperationNotFound),
            op_index(self.queue@, op_id) >= 0 ==> (r matches Ok(op) && op.id == op_id
                && op.approvals@ == self.queue@[op_index(self.queue@, op_id)].approvals@
                && op.timelock_start_ledger == self.queue@[op_index(self.queue@, op_id)].timelock_start_ledger),
    {
        match find_op(&self.queue, op_id) {
            Some(i) => {
                proof {
                    lemma_op_index(self.queue@, op_id);
                }
                Ok(self.queue[i].clone_op())
            },
            None => Err(ErrorCode::OperationNotFound),
        }
    }

    /// Id of the queue head (0 when the queue is empty).
    pub fn get_ms_queue_head(&self) -> (r: u32)
        ensures
            r == self.head_id(),
    {
        if self.queue.len() == 0 { 0 } else { self.queue[0].id }
    }
}

impl MultiSigOperation {
    /// A copy of the operation.
    pub fn clone_op(&self) -> (r: MultiSigOperation)
        ensures
            r.id == self.id,
            r.op_type == self.op_type,
            r.proposed_by == self.proposed_by,
            r.proposed_ledger == self.proposed_ledger,
            r.data@ == self.data@,
            r.approvals@ == self.approvals@,
            r.required_approvals == self.required_approvals,
            r.timelock_start_ledger == self.timelock_start_ledger,
    {
        let r = MultiSigOperation {
            id: self.id,
            op_type: self.op_type,
            proposed_by: self.proposed_by,
            proposed_ledger: self.proposed_ledger,
            data: self.data.clone(),
            approvals: self.approvals.clone(),
            required_approvals: self.required_approvals,
            timelock_start_ledger: self.timelock_start_ledger,
        };
        assert(r.data@ =~= self.data@);
        assert(r.approvals@ =~= self.approvals@);
        r
    }
}


impl MultiSig {
    /// The governors, in order of appointment.
    pub fn get_governors(&self) -> (r: Vec<u64>)
        ensures
            r@ == self.governors@,
    {
        self.governors.clone()
    }

    /// Approvals an operation needs.
    pub fn get_required_approvals(&self) -> (r: u32)
        ensures
            r == self.required_approvals,
    {
        self.required_approvals
    }
}

} // verus!
