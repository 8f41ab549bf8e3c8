//! Named operations with dependencies: an operation executes only once all
//! the operations it depends on have executed, and cancelling an operation
//! cancels, transitively, every operation that depends on it.

use vstd::prelude::*;
use crate::types::ErrorCode;

verus! {

/// Lifecycle of an operation.
#[derive(Clone, Copy, Debug, PartialEq, Eq, Structural)]
pub enum OperationStatus {
    Pending,
    Executed,
    Cancelled,
}

/// An operation and the ids of the operations it depends on.
pub struct OperationRecord {
    pub id: String,
    pub depends_on: Vec<String>,
}

/// All operations in order of creation, with their statuses.
pub struct Operations {
    pub ops: Vec<OperationRecord>,
    pub statuses: Vec<OperationStatus>,
}

/// Position of the first operation with id `id` at or after `i` (-1 when none).
pub open spec fn op_pos_from(s: Seq<OperationRecord>, id: Seq<char>, i: int) -> int
    decreases s.len() - i,
{
    if i < 0 || i >= s.len() {
        -1
    } else if s[i].id@ == id {
        i
    } else {
        op_pos_from(s, id, i + 1)
    }
}

pub proof fn lemma_op_pos_range(s: Seq<OperationRecord>, id: Seq<char>, i: int)
    requires
        0 <= i,
    ensures
        op_pos_from(s, id, i) == -1 || (i <= op_pos_from(s, id, i) < s.len() && s[op_pos_from(s, id, i)].id@ == id),
        op_pos_from(s, id, i) == -1 ==> forall|j: int| i <= j < s.len() ==> #[trigger] s[j].id@ != id,
    decreases s.len() - i,
{
    if 0 <= i < s.len() && s[i].id@ != id {
        lemma_op_pos_range(s, id, i + 1);
    }
}

/// Whether operation `y` lists operation `x` among its dependencies.
pub open spec fn depends(s: Seq<OperationRecord>, y: int, x: int) -> bool {
    exists|k: int| 0 <= k < s[y].depends_on@.len() && #[trigger] s[y].depends_on@[k]@ == s[x].id@
}

impl Operations {
    /// Statuses match operations, and no id is used twice.
    pub open spec fn wf(&self) -> bool {
        &&& self.ops@.len() == self.statuses@.len()
        &&& forall|i: int, j: int| 0 <= i < j < self.ops@.len() ==> #[trigger] self.ops@[i].id@ != #[trigger] self.ops@[j].id@
    }

    /// Position of operation `id` (-1 when none).
    pub open spec fn pos(&self, id: Seq<char>) -> int {
        op_pos_from(self.ops@, id, 0)
    }

    /// Status of operation `id`.
    pub open spec fn status_of(&self, id: Seq<char>) -> Option<OperationStatus> {
        let p = self.pos(id);
        if p >= 0 { Some(self.statuses@[p]) } else { None }
    }

    /// No operation yet.
    pub fn new() -> (r: Operations)
        ensures
            r.wf(),
            r.ops@.len() == 0,
    {
        Operations { ops: Vec::new(), statuses: Vec::new() }
    }

    fn find(&self, id: &String) -> (r: Option<usize>)
        requires
            self.wf(),
        ensures
            match r {
                Some(p) => p as int == self.pos(id@) && p < self.ops@.len() && self.ops@[p as int].id@ == id@,
                None => self.pos(id@) == -1 && forall|j: int| 0 <= j < self.ops@.len() ==> #[trigger] self.ops@[j].id@ != id@,
            },
    {
        proof {
            lemma_op_pos_range(self.ops@, id@, 0);
        }
        let n = self.ops.len();
        let mut i: usize = 0;
        while i < n
            invariant
                n == self.ops@.len(),
                0 <= i <= n,
                self.pos(id@) == op_pos_from(self.ops@, id@, i as int),
            decreases n - i,
        {
            if self.ops[i].id == *id {
                return Some(i);
            }
            i = i + 1;
        }
        None
    }

    /// Creates a pending operation `op_id` depending on `depends_on`;
    /// refused when the id is taken.
    pub fn create_operation(&mut self, op_id: String, depends_on: Vec<String>) -> (r: Result<(), ErrorCode>)
        requires
            old(self).wf(),
        ensures
            final(self).wf(),
            r == (if old(self).pos(op_id@) >= 0 {
                Err(ErrorCode::OperationAlreadyExists)
            } else {
                Ok::<(), ErrorCode>(())
            }),
            r.is_ok() ==> final(self).ops@ == old(self).ops@.push(OperationRecord { id: op_id, depends_on })
                && final(self).statuses@ == old(self).statuses@.push(OperationStatus::Pending),
            r.is_err() ==> final(self).ops@ == old(self).ops@ && final(self).statuses@ == old(self).statuses@,
    {
        match self.find(&op_id) {
            Some(_) => Err(ErrorCode::OperationAlreadyExists),
            None => {
                self.ops.push(OperationRecord { id: op_id, depends_on });
                self.statuses.push(OperationStatus::Pending);
                Ok(())
            },
        }
    }

    /// The dependencies of operation `op_id`.
    pub fn get_operation_dependencies(&self, op_id: &String) -> (r: Result<Vec<String>, ErrorCode>)
        requires
            self.wf(),
        ensures
            match r {
                Ok(v) => self.pos(op_id@) >= 0 && v@.len() == self.ops@[self.pos(op_id@)].depends_on@.len()
                    && forall|k: int| 0 <= k < v@.len() ==> #[trigger] v@[k]@ == self.ops@[self.pos(op_id@)].depends_on@[k]@,
                Err(e) => self.pos(op_id@) == -1 && e == ErrorCode::OperationNotFound,
            },
    {
        match self.find(op_id) {
            Some(p) => {
                let deps = &self.ops[p].depends_on;
                let mut out: Vec<String> = Vec::new();
                let mut k: usize = 0;
                while k < deps.len()
                    invariant
                        0 <= k <= deps@.len(),
                        out@.len() == k,
                        forall|j: int| 0 <= j < k ==> #[trigger] out@[j]@ == deps@[j]@,
                    decreases deps@.len() - k,
                {
                    out.push(deps[k].clone());
                    k = k + 1;
                }
                Ok(out)
            },
            None => Err(ErrorCode::OperationNotFound),
        }
    }

    /// The status of operation `op_id`.
    pub fn get_operation_status(&self, op_id: &String) -> (r: Result<OperationStatus, ErrorCode>)
        requires
            self.wf(),
        ensures
            r == (match self.status_of(op_id@) {
                Some(s) => Ok(s),
                None => Err(ErrorCode::OperationNotFound),
            }),
    {
        match self.find(op_id) {
            Some(p) => Ok(self.statuses[p]),
            None => Err(ErrorCode::OperationNotFound),
        }
    }

    /// The first refusal among the dependencies from the `k`-th on: a
    /// dependency that does not exist, or one not executed.
    pub open spec fn deps_check(&self, deps: Seq<String>, k: int) -> Result<(), ErrorCode>
        decreases deps.len() - k,
    {
        if k < 0 || k >= deps.len() {
            Ok(())
        } else if self.status_of(deps[k]@).is_none() {
            Err(ErrorCode::OperationNotFound)
        } else if self.status_of(deps[k]@).unwrap() != OperationStatus::Executed {
            Err(ErrorCode::DependencyNotMet)
        } else {
            self.deps_check(deps, k + 1)
        }
    }

    /// The outcome of executing `id`.
    pub open spec fn execute_check(&self, id: Seq<char>) -> Result<(), ErrorCode> {
        let p = self.pos(id);
        if p < 0 {
            Err(ErrorCode::OperationNotFound)
        } else if self.statuses@[p] != OperationStatus::Pending {
            Err(ErrorCode::InvalidOperationState)
        } else {
            self.deps_check(self.ops@[p].depends_on@, 0)
        }
    }

    /// Executes a pending operation whose dependencies have all executed.
    pub fn execute_operation(&mut self, op_id: &String) -> (r: Result<(), ErrorCode>)
        requires
            old(self).wf(),
        ensures
            final(self).wf(),
            r == old(self).execute_check(op_id@),
            final(self).ops@ == old(self).ops@,
            final(self).statuses@ == (if r.is_ok() {
                old(self).statuses@.update(old(self).pos(op_id@), OperationStatus::Executed)
            } else {
                old(self).statuses@
            }),
    {
        let p = match self.find(op_id) {
            Some(p) => p,
            None => {
                return Err(ErrorCode::OperationNotFound);
            },
        };
        if self.statuses[p] != OperationStatus::Pending {
            return Err(ErrorCode::InvalidOperationState);
        }
        let n = self.ops[p].depends_on.len();
        let mut k: usize = 0;
        while k < n
            invariant
                self.wf(),
                *self == *old(self),
                p as int == old(self).pos(op_id@),
                old(self).statuses@[p as int] == OperationStatus::Pending,
                p < self.ops@.len(),
                n == self.ops@[p as int].depends_on@.len(),
                0 <= k <= n,
                self.deps_check(self.ops@[p as int].depends_on@, 0) == self.deps_check(self.ops@[p as int].depends_on@, k as int),
            decreases n - k,
        {
            match self.find(&self.ops[p].depends_on[k]) {
                Some(q) => {
                    if self.statuses[q] != OperationStatus::Executed {
                        return Err(ErrorCode::DependencyNotMet);
                    }
                },
                None => {
                    return Err(ErrorCode::OperationNotFound);
                },
            }
            k = k + 1;
        }
        self.statuses.set(p, OperationStatus::Executed);
        Ok(())
    }
}


/// Number of operations among the first `n` that are not cancelled.
pub open spec fn open_count(st: Seq<OperationStatus>, n: nat) -> nat
    decreases n,
{
    if n == 0 {
        0
    } else {
        open_count(st, (n - 1) as nat) + if st[n - 1] != OperationStatus::Cancelled { 1nat } else { 0nat }
    }
}

pub proof fn lemma_open_count_cancel(st: Seq<OperationStatus>, j: int, n: nat)
    requires
        0 <= j < st.len(),
        n <= st.len(),
        st[j] != OperationStatus::Cancelled,
    ensures
        open_count(st.update(j, OperationStatus::Cancelled), n) == open_count(st, n) - (if j < n { 1int } else { 0int }),
    decreases n,
{
    if n > 0 {
        lemma_open_count_cancel(st, j, (n - 1) as nat);
    }
}

/// Whether cancellation reached operation `j` (it was not cancelled before).
pub open spec fn newly_cancelled(before: Seq<OperationStatus>, after: Seq<OperationStatus>, j: int) -> bool {
    before[j] != OperationStatus::Cancelled && after[j] == OperationStatus::Cancelled
}

/// Every newly cancelled operation is `start` or depends on a newly
/// cancelled operation of lower rank: it was reached from `start` along
/// dependency edges.
#[verifier::opaque]
pub open spec fn reached_from(ops: Seq<OperationRecord>, before: Seq<OperationStatus>, after: Seq<OperationStatus>, start: int, rank: Map<int, nat>) -> bool {
    forall|j: int| 0 <= j < before.len() && #[trigger] newly_cancelled(before, after, j) ==> rank.dom().contains(j) && (j == start
        || exists|x: int| 0 <= x < before.len() && newly_cancelled(before, after, x) && rank.dom().contains(x) && rank[x] < rank[j]
            && #[trigger] depends(ops, j, x))
}

/// Every operation depending on a newly cancelled one is cancelled.
pub open spec fn cancel_closed(ops: Seq<OperationRecord>, before: Seq<OperationStatus>, after: Seq<OperationStatus>) -> bool {
    forall|x: int, y: int| 0 <= x < before.len() && 0 <= y < before.len() && #[trigger] newly_cancelled(before, after, x)
        && #[trigger] depends(ops, y, x) ==> after[y] == OperationStatus::Cancelled
}


/// Every operation depending on a newly cancelled one is cancelled or
/// waits on the stack.
#[verifier::opaque]
pub open spec fn pending(ops: Seq<OperationRecord>, before: Seq<OperationStatus>, cur: Seq<OperationStatus>, stack: Seq<usize>) -> bool {
    forall|x: int, y: int| 0 <= x < before.len() && 0 <= y < before.len() && #[trigger] newly_cancelled(before, cur, x)
        && #[trigger] depends(ops, y, x) ==> cur[y] == OperationStatus::Cancelled || stack.contains(y as usize)
}

/// Every stacked operation is `start` (rank 0) or depends on a newly
/// cancelled operation of rank below its own.
#[verifier::opaque]
pub open spec fn justified(ops: Seq<OperationRecord>, before: Seq<OperationStatus>, cur: Seq<OperationStatus>, rank: Map<int, nat>, stack: Seq<usize>, srank: Seq<nat>, start: usize) -> bool {
    forall|i: int| 0 <= i < stack.len() ==> #[trigger] stack[i] < before.len() && ((stack[i] == start && srank[i] == 0)
        || exists|x: int| 0 <= x < before.len() && newly_cancelled(before, cur, x) && rank.dom().contains(x)
            && rank[x] < srank[i] && #[trigger] depends(ops, stack[i] as int, x))
}

proof fn lemma_justified_top(ops: Seq<OperationRecord>, before: Seq<OperationStatus>, cur: Seq<OperationStatus>, rank: Map<int, nat>, stack: Seq<usize>, srank: Seq<nat>, start: usize)
    requires
        justified(ops, before, cur, rank, stack, srank, start),
        stack.len() > 0,
        srank.len() == stack.len(),
    ensures
        stack.last() < before.len(),
        (stack.last() == start && srank.last() == 0) || exists|x: int| 0 <= x < before.len() && newly_cancelled(before, cur, x)
            && rank.dom().contains(x) && rank[x] < srank.last() && #[trigger] depends(ops, stack.last() as int, x),
{
    reveal(justified);
    let i = stack.len() - 1;
    assert(stack[i] < before.len());
}

proof fn lemma_justified_drop(ops: Seq<OperationRecord>, before: Seq<OperationStatus>, cur: Seq<OperationStatus>, rank: Map<int, nat>, stack: Seq<usize>, srank: Seq<nat>, start: usize)
    requires
        justified(ops, before, cur, rank, stack, srank, start),
        stack.len() > 0,
        srank.len() == stack.len(),
    ensures
        justified(ops, before, cur, rank, stack.drop_last(), srank.drop_last(), start),
{
    reveal(justified);
    assert forall|i: int| 0 <= i < stack.drop_last().len() implies #[trigger] stack.drop_last()[i] < before.len() && ((stack.drop_last()[i] == start && srank.drop_last()[i] == 0)
        || exists|x: int| 0 <= x < before.len() && newly_cancelled(before, cur, x) && rank.dom().contains(x)
            && rank[x] < srank.drop_last()[i] && #[trigger] depends(ops, stack.drop_last()[i] as int, x)) by {
        assert(stack.drop_last()[i] == stack[i]);
        assert(srank.drop_last()[i] == srank[i]);
    }
}

proof fn lemma_pending_pop_cancelled(ops: Seq<OperationRecord>, before: Seq<OperationStatus>, cur: Seq<OperationStatus>, stack: Seq<usize>, s: usize)
    requires
        pending(ops, before, cur, stack),
        stack.len() > 0,
        stack.last() == s,
        cur.len() == before.len() <= usize::MAX,
        (s as int) < cur.len(),
        cur[s as int] == OperationStatus::Cancelled,
    ensures
        pending(ops, before, cur, stack.drop_last()),
{
    reveal(pending);
    assert forall|x: int, y: int| 0 <= x < before.len() && 0 <= y < before.len() && #[trigger] newly_cancelled(before, cur, x)
        && #[trigger] depends(ops, y, x) implies cur[y] == OperationStatus::Cancelled || stack.drop_last().contains(y as usize) by {
        if cur[y] != OperationStatus::Cancelled {
            let k = choose|k: int| 0 <= k < stack.len() && stack[k] == y as usize;
            if k == stack.len() - 1 {
                assert(y == s as int);
            }
            assert(stack.drop_last()[k] == y as usize);
        }
    }
}

proof fn lemma_reached_after_cancel(ops: Seq<OperationRecord>, before: Seq<OperationStatus>, cur0: Seq<OperationStatus>, start: int, rank0: Map<int, nat>, s: int, top: nat)
    requires
        reached_from(ops, before, cur0, start, rank0),
        before.len() == cur0.len(),
        0 <= s < cur0.len(),
        cur0[s] != OperationStatus::Cancelled,
        forall|j: int| 0 <= j < before.len() ==> #[trigger] cur0[j] == before[j] || newly_cancelled(before, cur0, j),
        (s == start && top == 0) || exists|x: int| 0 <= x < before.len() && newly_cancelled(before, cur0, x)
            && rank0.dom().contains(x) && rank0[x] < top && #[trigger] depends(ops, s, x),
    ensures
        reached_from(ops, before, cur0.update(s, OperationStatus::Cancelled), start, rank0.insert(s, top)),
{
    reveal(reached_from);
    let cur1 = cur0.update(s, OperationStatus::Cancelled);
    let rank1 = rank0.insert(s, top);
    assert(cur0[s] == before[s]);
    assert forall|j: int| 0 <= j < before.len() && #[trigger] newly_cancelled(before, cur1, j) implies rank1.dom().contains(j) && (j == start
        || exists|x: int| 0 <= x < before.len() && newly_cancelled(before, cur1, x) && rank1.dom().contains(x) && rank1[x] < rank1[j]
            && #[trigger] depends(ops, j, x)) by {
        if j == s {
            if s != start || top != 0 {
                if !(s == start && top == 0) {
                    let x = choose|x: int| 0 <= x < before.len() && newly_cancelled(before, cur0, x)
                        && rank0.dom().contains(x) && rank0[x] < top && #[trigger] depends(ops, s, x);
                    assert(x != s);
                    assert(newly_cancelled(before, cur1, x));
                    assert(rank1[x] == rank0[x]);
                }
            }
        } else {
            assert(cur1[j] == cur0[j]);
            assert(newly_cancelled(before, cur0, j));
            if j != start {
                let x = choose|x: int| 0 <= x < before.len() && newly_cancelled(before, cur0, x) && rank0.dom().contains(x)
                    && rank0[x] < rank0[j] && #[trigger] depends(ops, j, x);
                assert(x != s);
                assert(newly_cancelled(before, cur1, x));
                assert(rank1[x] == rank0[x]);
            }
        }
    }
}

proof fn lemma_justified_after_cancel(ops: Seq<OperationRecord>, before: Seq<OperationStatus>, cur0: Seq<OperationStatus>, rank0: Map<int, nat>, st0: Seq<usize>, sr0: Seq<nat>, start: usize, s: usize, top: nat, deps: Seq<usize>, stack: Seq<usize>, srank: Seq<nat>)
    requires
        justified(ops, before, cur0, rank0, st0, sr0, start),
        st0.len() > 0,
        sr0.len() == st0.len(),
        st0.last() == s,
        sr0.last() == top,
        before.len() == cur0.len(),
        (s as int) < cur0.len(),
        cur0[s as int] != OperationStatus::Cancelled,
        forall|j: int| 0 <= j < before.len() ==> #[trigger] cur0[j] == before[j] || newly_cancelled(before, cur0, j),
        forall|i: int| 0 <= i < deps.len() ==> #[trigger] deps[i] < before.len() && depends(ops, deps[i] as int, s as int),
        stack == st0.drop_last() + deps,
        srank == sr0.drop_last() + Seq::new(deps.len(), |i: int| top + 1),
    ensures
        justified(ops, before, cur0.update(s as int, OperationStatus::Cancelled), rank0.insert(s as int, top), stack, srank, start),
{
    reveal(justified);
    let cur1 = cur0.update(s as int, OperationStatus::Cancelled);
    let rank1 = rank0.insert(s as int, top);
    assert(cur0[s as int] == before[s as int]);
    assert(newly_cancelled(before, cur1, s as int));
    assert forall|i: int| 0 <= i < stack.len() implies #[trigger] stack[i] < before.len() && ((stack[i] == start && srank[i] == 0)
        || exists|x: int| 0 <= x < before.len() && newly_cancelled(before, cur1, x) && rank1.dom().contains(x)
            && rank1[x] < srank[i] && #[trigger] depends(ops, stack[i] as int, x)) by {
        let m = st0.len() - 1;
        if i >= m {
            assert(stack[i] == deps[i - m]);
            assert(srank[i] == top + 1);
            assert(depends(ops, stack[i] as int, s as int));
        } else {
            assert(stack[i] == st0[i]);
            assert(srank[i] == sr0[i]);
            assert(st0[i] < before.len());
            if !(st0[i] == start && sr0[i] == 0) {
                let x = choose|x: int| 0 <= x < before.len() && newly_cancelled(before, cur0, x) && rank0.dom().contains(x)
                    && rank0[x] < sr0[i] && #[trigger] depends(ops, st0[i] as int, x);
                assert(x != s);
                assert(newly_cancelled(before, cur1, x));
                assert(rank1[x] == rank0[x]);
            }
        }
    }
}

proof fn lemma_pending_after_cancel(ops: Seq<OperationRecord>, before: Seq<OperationStatus>, cur0: Seq<OperationStatus>, st0: Seq<usize>, s: usize, deps: Seq<usize>, stack: Seq<usize>)
    requires
        pending(ops, before, cur0, st0),
        st0.len() > 0,
        st0.last() == s,
        before.len() == cur0.len() <= usize::MAX,
        (s as int) < cur0.len(),
        forall|y: int| 0 <= y < before.len() && #[trigger] depends(ops, y, s as int) ==> deps.contains(y as usize),
        stack == st0.drop_last() + deps,
    ensures
        pending(ops, before, cur0.update(s as int, OperationStatus::Cancelled), stack),
{
    reveal(pending);
    let cur1 = cur0.update(s as int, OperationStatus::Cancelled);
    let m = st0.len() - 1;
    assert forall|x: int, y: int| 0 <= x < before.len() && 0 <= y < before.len() && #[trigger] newly_cancelled(before, cur1, x)
        && #[trigger] depends(ops, y, x) implies cur1[y] == OperationStatus::Cancelled || stack.contains(y as usize) by {
        if x == s {
            let k = choose|k: int| 0 <= k < deps.len() && deps[k] == y as usize;
            assert(stack[m + k] == y as usize);
        } else {
            assert(newly_cancelled(before, cur0, x));
            if cur1[y] != OperationStatus::Cancelled {
                assert(y != s);
                let k = choose|k: int| 0 <= k < st0.len() && st0[k] == y as usize;
                if k == m {
                    assert(y == s as int);
                }
                assert(stack[k] == y as usize);
            }
        }
    }
}

/// Appends `items` to `stack`.
fn extend_stack(stack: &mut Vec<usize>, items: &Vec<usize>)
    ensures
        final(stack)@ == old(stack)@ + items@,
{
    let ghost start = old(stack)@;
    let mut i: usize = 0;
    while i < items.len()
        invariant
            0 <= i <= items@.len(),
            stack@ == start + items@.subrange(0, i as int),
        decreases items@.len() - i,
    {
        stack.push(items[i]);
        i = i + 1;
        assert(stack@ =~= start + items@.subrange(0, i as int));
    }
    assert(items@.subrange(0, items@.len() as int) =~= items@);
}

impl Operations {
    /// Whether operation `j` depends on operation `x`.
    fn depends_on_op(&self, j: usize, x: usize) -> (r: bool)
        requires
            j < self.ops@.len(),
            x < self.ops@.len(),
        ensures
            r == depends(self.ops@, j as int, x as int),
    {
        let deps = &self.ops[j].depends_on;
        let mut k: usize = 0;
        while k < deps.len()
            invariant
                0 <= k <= deps@.len(),
                deps@ == self.ops@[j as int].depends_on@,
                x < self.ops@.len(),
                forall|i: int| 0 <= i < k ==> #[trigger] deps@[i]@ != self.ops@[x as int].id@,
            decreases deps@.len() - k,
        {
            if deps[k] == self.ops[x].id {
                return true;
            }
            k = k + 1;
        }
        false
    }

    /// The operations that depend on operation `x`.
    fn dependents_of(&self, x: usize) -> (r: Vec<usize>)
        requires
            x < self.ops@.len(),
        ensures
            forall|i: int| 0 <= i < r@.len() ==> #[trigger] r@[i] < self.ops@.len() && depends(self.ops@, r@[i] as int, x as int),
            forall|y: int| 0 <= y < self.ops@.len() && #[trigger] depends(self.ops@, y, x as int) ==> r@.contains(y as usize),
    {
        let n = self.ops.len();
        let mut out: Vec<usize> = Vec::new();
        let mut j: usize = 0;
        while j < n
            invariant
                n == self.ops@.len(),
                x < n,
                0 <= j <= n,
                forall|i: int| 0 <= i < out@.len() ==> #[trigger] out@[i] < n && depends(self.ops@, out@[i] as int, x as int),
                forall|y: int| 0 <= y < j && #[trigger] depends(self.ops@, y, x as int) ==> out@.contains(y as usize),
            decreases n - j,
        {
            let ghost out0 = out@;
            if self.depends_on_op(j, x) {
                out.push(j);
                assert(out@[out@.len() - 1] == j);
            }
            proof {
                assert forall|y: int| 0 <= y < j + 1 && #[trigger] depends(self.ops@, y, x as int) implies out@.contains(y as usize) by {
                    if y < j {
                        let k = choose|k: int| 0 <= k < out0.len() && out0[k] == y as usize;
                        assert(out@[k] == y as usize);
                    }
                }
            }
            j = j + 1;
        }
        out
    }

    /// Cancels operation `op_id` and, transitively, every operation that
    /// depends on a cancelled one; the spread stops at operations already
    /// cancelled. Cancelling a cancelled operation changes nothing.
    #[verifier::spinoff_prover]
    pub fn cancel_operation(&mut self, op_id: &String) -> (r: Result<(), ErrorCode>)
        requires
            old(self).wf(),
        ensures
            final(self).wf(),
            final(self).ops@ == old(self).ops@,
            r.is_err() <==> old(self).pos(op_id@) == -1,
            r.is_err() ==> r == Err::<(), ErrorCode>(ErrorCode::OperationNotFound) && final(self).statuses@ == old(self).statuses@,
            r.is_ok() && old(self).statuses@[old(self).pos(op_id@)] == OperationStatus::Cancelled
                ==> final(self).statuses@ == old(self).statuses@,
            r.is_ok() ==> final(self).statuses@[old(self).pos(op_id@)] == OperationStatus::Cancelled,
            forall|j: int| 0 <= j < old(self).statuses@.len() ==> #[trigger] final(self).statuses@[j] == old(self).statuses@[j]
                || newly_cancelled(old(self).statuses@, final(self).statuses@, j),
            cancel_closed(old(self).ops@, old(self).statuses@, final(self).statuses@),
            r.is_ok() ==> exists|rank: Map<int, nat>| #[trigger] reached_from(old(self).ops@, old(self).statuses@, final(self).statuses@, old(self).pos(op_id@), rank),
    {
        let p0 = match self.find(op_id) {
            Some(p) => p,
            None => {
                proof {
                    assert(cancel_closed(self.ops@, self.statuses@, self.statuses@));
                }
                return Err(ErrorCode::OperationNotFound);
            },
        };
        if self.statuses[p0] == OperationStatus::Cancelled {
            proof {
                assert(cancel_closed(self.ops@, self.statuses@, self.statuses@));
                reveal(reached_from);
                assert(reached_from(self.ops@, self.statuses@, self.statuses@, p0 as int, Map::empty()));
            }
            return Ok(());
        }
        let ghost before = self.statuses@;
        let ghost mut rank: Map<int, nat> = Map::empty();
        let ghost mut srank: Seq<nat> = seq![0nat];
        let n = self.ops.len();
        let mut stack: Vec<usize> = Vec::new();
        stack.push(p0);
        proof {
            assert(stack@[0] == p0);
            reveal(pending);
            reveal(justified);
            reveal(reached_from);
            assert(reached_from(self.ops@, before, self.statuses@, p0 as int, rank));
        }
        while stack.len() > 0
            invariant
                self.wf(),
                self.ops@ == old(self).ops@,
                before == old(self).statuses@,
                n == self.ops@.len() == before.len(),
                p0 < n,
                p0 as int == old(self).pos(op_id@),
                before[p0 as int] != OperationStatus::Cancelled,
                self.statuses@[p0 as int] == OperationStatus::Cancelled || stack@.contains(p0),
                srank.len() == stack@.len(),
                forall|j: int| 0 <= j < n ==> #[trigger] self.statuses@[j] == before[j] || newly_cancelled(before, self.statuses@, j),
                reached_from(self.ops@, before, self.statuses@, p0 as int, rank),
                justified(self.ops@, before, self.statuses@, rank, stack@, srank, p0),
                pending(self.ops@, before, self.statuses@, stack@),
            decreases open_count(self.statuses@, n as nat), stack@.len(),
        {
            let ghost top_rank = srank.last();
            let ghost st0 = stack@;
            let ghost sr0 = srank;
            let s = stack.pop().unwrap();
            proof {
                srank = srank.drop_last();
                assert(st0[st0.len() - 1] == s);
                assert(stack@ == st0.drop_last());
                lemma_justified_top(self.ops@, before, self.statuses@, rank, st0, sr0, p0);
            }
            if self.statuses[s] != OperationStatus::Cancelled {
                let ghost cur0 = self.statuses@;
                let ghost rank0 = rank;
                proof {
                    lemma_open_count_cancel(cur0, s as int, n as nat);
                }
                self.statuses.set(s, OperationStatus::Cancelled);
                proof {
                    rank = rank.insert(s as int, top_rank);
                    lemma_reached_after_cancel(self.ops@, before, cur0, p0 as int, rank0, s as int, top_rank);
                }
                let deps = self.dependents_of(s);
                let ghost st1 = stack@;
                extend_stack(&mut stack, &deps);
                proof {
                    let sr1 = srank;
                    srank = srank + Seq::new(deps@.len(), |i: int| top_rank + 1);
                    lemma_justified_after_cancel(self.ops@, before, cur0, rank0, st0, sr0, p0, s, top_rank, deps@, stack@, srank);
                    lemma_pending_after_cancel(self.ops@, before, cur0, st0, s, deps@, stack@);
                    if self.statuses@[p0 as int] != OperationStatus::Cancelled {
                        let k = choose|k: int| 0 <= k < st0.len() && st0[k] == p0;
                        assert(k != st0.len() - 1);
                        assert(stack@[k] == p0);
                    }
                }
            } else {
                proof {
                    lemma_pending_pop_cancelled(self.ops@, before, self.statuses@, st0, s);
                    lemma_justified_drop(self.ops@, before, self.statuses@, rank, st0, sr0, p0);
                    if self.statuses@[p0 as int] != OperationStatus::Cancelled {
                        let k = choose|k: int| 0 <= k < st0.len() && st0[k] == p0;
                        assert(k != st0.len() - 1);
                        assert(stack@[k] == p0);
                    }
                }
            }
        }
        proof {
            reveal(pending);
            assert(cancel_closed(self.ops@, before, self.statuses@));
        }
        Ok(())
    }
}

} // verus!
