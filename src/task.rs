//! Tasks, the task table and the round-robin scheduler.
//!
//! The table keeps its tasks in ascending identifier order; identifiers are
//! unique and lie in `[1, MAX_TASKS)`.  It also records the identifier of
//! the task that currently runs.  The address spaces and kernel stacks of
//! its tasks are pairwise disjoint, so no two tasks share a user frame.
use crate::context::{
    can_create, created, failed_cleanly, lemma_context_kept, owns_page, space_translate,
    stored_context, CapturedContext, Context,
};
use crate::error::Error;
use crate::mmu::{MAX_MAPPED, MMU, POOL_PAGES};
use vstd::prelude::*;

verus! {

/// Identifiers are below this bound.
pub const MAX_TASKS: u64 = 10000;
/// The scheduler acts on every this-many-th timer tick.
pub const SCHEDULE_TICKS: u64 = 5;

/// Lifecycle state of a task.
#[derive(Clone, Copy, Debug, PartialEq, Eq, Structural)]
pub enum TaskStatus {
    Initializing,
    Ready,
    Running,
    Terminated,
}

/// A task: its saved context, identifier, state and exit code.
pub struct Task {
    pub context: Context,
    pub tid: u64,
    pub status: TaskStatus,
    pub exit_code: u64,
}

impl Task {
    /// A new task in state `Initializing` with a fresh user context.
    pub fn new(tid: u64, mmu: &mut MMU) -> (r: Result<Task, Error>)
        requires
            old(mmu).wf(),
        ensures
            final(mmu).wf(),
            final(mmu).memory@ == old(mmu).memory@,
            final(mmu).kernel_pdpt == old(mmu).kernel_pdpt,
            can_create(old(mmu)) <==> r is Ok,
            match r {
                Ok(t) => t.tid == tid && t.status == TaskStatus::Initializing && t.exit_code == 0
                    && created(old(mmu), final(mmu), t.context),
                Err(e) => e == Error::ENOMEM && failed_cleanly(old(mmu), final(mmu)),
            },
    {
        match Context::new(mmu) {
            Ok(context) => Ok(Task { context, tid, status: TaskStatus::Initializing, exit_code: 0 }),
            Err(e) => Err(e),
        }
    }

    /// Whether the task has terminated.
    pub fn died(&self) -> (r: bool)
        ensures
            r == (self.status == TaskStatus::Terminated),
    {
        self.status == TaskStatus::Terminated
    }

    /// Whether the task is ready to run.
    pub fn standby(&self) -> (r: bool)
        ensures
            r == (self.status == TaskStatus::Ready),
    {
        self.status == TaskStatus::Ready
    }

    pub fn exit_code(&self) -> (r: u64)
        ensures
            r == self.exit_code,
    {
        self.exit_code
    }

    pub fn tid(&self) -> (r: u64)
        ensures
            r == self.tid,
    {
        self.tid
    }
}

/// Two layouts share no pool page.
pub open spec fn pages_disjoint(a: &Context, b: &Context) -> bool {
    forall|i: int| !(#[trigger] owns_page(a.layout@, i) && owns_page(b.layout@, i))
}

/// Two contexts map no common frame.
pub open spec fn frames_disjoint(a: &Context, b: &Context, mmu: &MMU) -> bool {
    forall|p: int| !(#[trigger] a.frames(mmu).contains(p) && b.frames(mmu).contains(p))
}

/// Whether a list of tasks is ordered by identifier, with identifiers in
/// `[1, MAX_TASKS)`, each context laid out in `mmu`, and no two tasks
/// sharing a pool page or a frame.
pub open spec fn tasks_ok(s: Seq<Task>, mmu: &MMU) -> bool {
    &&& forall|i: int, j: int| 0 <= i < j < s.len() ==> #[trigger] s[i].tid < #[trigger] s[j].tid
    &&& forall|i: int| 0 <= i < s.len() ==> 1 <= #[trigger] s[i].tid < MAX_TASKS
    &&& forall|i: int| 0 <= i < s.len() ==> (#[trigger] s[i]).context.wf(mmu)
    &&& forall|i: int, j: int|
        0 <= i < s.len() && 0 <= j < s.len() && i != j ==> pages_disjoint(
            &(#[trigger] s[i]).context,
            &(#[trigger] s[j]).context,
        ) && frames_disjoint(&s[i].context, &s[j].context, mmu)
}

/// Identifiers of a list of tasks, in order.
pub open spec fn tid_seq(s: Seq<Task>) -> Seq<u64> {
    Seq::new(s.len(), |i: int| s[i].tid)
}

/// The `k`-th identifier tried when looking for a free one from `hint`:
/// `hint`, `hint + 1`, ..., `MAX_TASKS - 1`, `1`, `2`, ...
pub open spec fn cyclic_tid(hint: int, k: int) -> int {
    ((hint - 1 + k) % (MAX_TASKS - 1) as int) + 1
}

/// First identifier not in `tids` among the candidates from the `k`-th
/// on, or 0 when every identifier is taken.
pub open spec fn free_tid_from(tids: Seq<u64>, hint: int, k: int) -> int
    decreases MAX_TASKS - 1 - k,
{
    if k >= MAX_TASKS - 1 || k < 0 {
        0
    } else if !tids.contains(cyclic_tid(hint, k) as u64) {
        cyclic_tid(hint, k)
    } else {
        free_tid_from(tids, hint, k + 1)
    }
}

/// Tasks of `s` that have not terminated, in order.
pub open spec fn survivors(s: Seq<Task>) -> Seq<Task>
    decreases s.len(),
{
    if s.len() == 0 {
        Seq::empty()
    } else if s.last().status == TaskStatus::Terminated {
        survivors(s.drop_last())
    } else {
        survivors(s.drop_last()).push(s.last())
    }
}

/// Pool page `q` belongs to a terminated task of `s`.
pub open spec fn released_page(s: Seq<Task>, q: int) -> bool {
    exists|j: int|
        0 <= j < s.len() && s[j].status == TaskStatus::Terminated && #[trigger] owns_page(
            s[j].context.layout@,
            q,
        )
}

/// Frame `p` is mapped (in `mmu`) by a terminated task of `s`.
pub open spec fn released_frame(s: Seq<Task>, mmu: &MMU, p: int) -> bool {
    exists|j: int|
        0 <= j < s.len() && s[j].status == TaskStatus::Terminated && #[trigger] s[j].context.frames(
            mmu,
        ).contains(p)
}

/// Position of the first task with identifier `tid`, or `s.len()`.
pub open spec fn index_of_tid(s: Seq<Task>, tid: u64, k: int) -> int
    decreases s.len() - k,
{
    if k >= s.len() || k < 0 {
        s.len() as int
    } else if s[k].tid == tid {
        k
    } else {
        index_of_tid(s, tid, k + 1)
    }
}

/// Whether task `t` is Ready with an identifier above `cur` (`above`) or
/// below it (`!above`).
pub open spec fn ready_candidate(t: Task, cur: u64, above: bool) -> bool {
    t.status == TaskStatus::Ready && if above {
        t.tid > cur
    } else {
        t.tid < cur
    }
}

/// Position, from `k` on, of the first Ready task whose identifier is
/// above `cur` (`above`) or below it (`!above`); `s.len()` when none.
pub open spec fn first_ready(s: Seq<Task>, cur: u64, above: bool, k: int) -> int
    decreases s.len() - k,
{
    if k >= s.len() || k < 0 {
        s.len() as int
    } else if ready_candidate(s[k], cur, above) {
        k
    } else {
        first_ready(s, cur, above, k + 1)
    }
}

/// Round-robin choice: the first Ready task after `cur` in identifier
/// order, else the first Ready one before it; `s.len()` when none.
pub open spec fn pick_next(s: Seq<Task>, cur: u64) -> int {
    let a = first_ready(s, cur, true, 0);
    if a < s.len() {
        a
    } else {
        first_ready(s, cur, false, 0)
    }
}

/// `t` in state `st`.
pub open spec fn with_status(t: Task, st: TaskStatus) -> Task {
    Task { status: st, ..t }
}

/// The task table.
pub struct TaskList {
    /// Tasks in ascending identifier order.
    pub tasks: Vec<Task>,
    /// Where the search for a free identifier starts.
    pub next_id: u64,
    /// Identifier of the running task (0: none yet).
    pub current: u64,
}

impl TaskList {
    pub open spec fn wf(&self, mmu: &MMU) -> bool {
        &&& mmu.wf()
        &&& tasks_ok(self.tasks@, mmu)
        &&& 1 <= self.next_id < MAX_TASKS
    }

    /// Identifiers in the table, ascending.
    pub open spec fn tids(&self) -> Seq<u64> {
        tid_seq(self.tasks@)
    }

    /// An empty table.
    pub fn new() -> (r: Self)
        ensures
            r.tasks@.len() == 0,
            r.next_id == 1,
            r.current == 0,
            forall|m: MMU| #[trigger] m.wf() ==> r.wf(&m),
    {
        TaskList { tasks: Vec::new(), next_id: 1, current: 0 }
    }

    /// Position of the task with identifier `tid`.
    pub fn find(&self, tid: u64) -> (r: Option<usize>)
        ensures
            match r {
                Some(i) => i < self.tasks@.len() && self.tasks@[i as int].tid == tid,
                None => forall|i: int| 0 <= i < self.tasks@.len() ==> #[trigger] self.tasks@[i].tid != tid,
            },
    {
        let mut i: usize = 0;
        while i < self.tasks.len()
            invariant
                i <= self.tasks@.len(),
                forall|j: int| 0 <= j < i ==> #[trigger] self.tasks@[j].tid != tid,
            decreases self.tasks@.len() - i,
        {
            if self.tasks[i].tid == tid {
                return Some(i);
            }
            i += 1;
        }
        None
    }

    /// Whether a task with identifier `tid` is in the table.
    pub fn contains(&self, tid: u64) -> (r: bool)
        ensures
            r == self.tids().contains(tid),
    {
        match self.find(tid) {
            Some(i) => {
                assert(self.tids()[i as int] == tid);
                true
            },
            None => {
                assert(!self.tids().contains(tid)) by {
                    if self.tids().contains(tid) {
                        let k = choose|k: int| 0 <= k < self.tids().len() && self.tids()[k] == tid;
                        assert(self.tasks@[k].tid == tid);
                    }
                }
                false
            },
        }
    }

    /// The task with identifier `tid`.
    pub fn get(&self, tid: u64) -> (r: Option<&Task>)
        ensures
            match r {
                Some(t) => exists|i: int|
                    0 <= i < self.tasks@.len() && self.tasks@[i] == *t && t.tid == tid,
                None => !self.tids().contains(tid),
            },
    {
        match self.find(tid) {
            Some(i) => Some(&self.tasks[i]),
            None => {
                assert(!self.tids().contains(tid)) by {
                    if self.tids().contains(tid) {
                        let k = choose|k: int| 0 <= k < self.tids().len() && self.tids()[k] == tid;
                        assert(self.tasks@[k].tid == tid);
                    }
                }
                None
            },
        }
    }

    /// The running task: the one whose identifier is the current one.
    pub fn current(&self) -> (r: Option<&Task>)
        ensures
            match r {
                Some(t) => exists|i: int|
                    0 <= i < self.tasks@.len() && self.tasks@[i] == *t && t.tid == self.current,
                None => !self.tids().contains(self.current),
            },
    {
        self.get(self.current)
    }

    /// The tasks, in ascending identifier order.
    pub fn iter(&self) -> (r: &Vec<Task>)
        ensures
            r@ == self.tasks@,
    {
        &self.tasks
    }

    /// Detaches the task with identifier `tid` and hands it to the caller,
    /// who decides when its context is released.
    pub fn remove(&mut self, tid: u64) -> (r: Option<Task>)
        ensures
            forall|m: MMU| #[trigger] old(self).wf(&m) ==> final(self).wf(&m),
            final(self).next_id == old(self).next_id,
            final(self).current == old(self).current,
            match r {
                Some(t) => exists|i: int|
                    0 <= i < old(self).tasks@.len() && old(self).tasks@[i] == t && t.tid == tid
                        && final(self).tasks@ == old(self).tasks@.remove(i),
                None => !old(self).tids().contains(tid) && final(self).tasks@ == old(self).tasks@,
            },
    {
        match self.find(tid) {
            Some(i) => {
                let ghost s0 = self.tasks@;
                let t = self.tasks.remove(i);
                assert forall|m: MMU| #[trigger] old(self).wf(&m) implies self.wf(&m) by {
                    lemma_tasks_remove(s0, i as int, &m);
                }
                Some(t)
            },
            None => {
                assert(!self.tids().contains(tid)) by {
                    if self.tids().contains(tid) {
                        let k = choose|k: int| 0 <= k < self.tids().len() && self.tids()[k] == tid;
                        assert(self.tasks@[k].tid == tid);
                    }
                }
                None
            },
        }
    }

    /// Sets the state of the task at position `i`.
    fn set_status_at(&mut self, i: usize, st: TaskStatus)
        requires
            i < old(self).tasks@.len(),
        ensures
            final(self).tasks@ == old(self).tasks@.update(i as int, with_status(old(self).tasks@[i as int], st)),
            final(self).next_id == old(self).next_id,
            final(self).current == old(self).current,
    {
        self.tasks[i].status = st;
        assert(self.tasks@ =~= old(self).tasks@.update(i as int, with_status(old(self).tasks@[i as int], st)));
    }

    /// Sets the state of the task with identifier `tid`; false when there
    /// is none.
    pub fn set_status(&mut self, mmu: &MMU, tid: u64, st: TaskStatus) -> (r: bool)
        requires
            old(self).wf(mmu),
        ensures
            final(self).wf(mmu),
            final(self).next_id == old(self).next_id,
            final(self).current == old(self).current,
            r == old(self).tids().contains(tid),
            r ==> final(self).tasks@ == old(self).tasks@.update(
                index_of_tid(old(self).tasks@, tid, 0),
                with_status(old(self).tasks@[index_of_tid(old(self).tasks@, tid, 0)], st),
            ),
            !r ==> final(self).tasks@ == old(self).tasks@,
    {
        match self.find(tid) {
            Some(i) => {
                proof {
                    lemma_index_of_tid(self.tasks@, tid, i as int);
                    lemma_tasks_update(self.tasks@, i as int, with_status(self.tasks@[i as int], st), mmu);
                }
                self.set_status_at(i, st);
                assert(old(self).tids()[i as int] == tid);
                true
            },
            None => {
                assert(!self.tids().contains(tid)) by {
                    if self.tids().contains(tid) {
                        let k = choose|k: int| 0 <= k < self.tids().len() && self.tids()[k] == tid;
                        assert(self.tasks@[k].tid == tid);
                    }
                }
                false
            },
        }
    }

    /// Sets the saved instruction pointer of the task with identifier
    /// `tid`; false when there is none.
    pub fn set_rip(&mut self, mmu: &MMU, tid: u64, rip: u64) -> (r: bool)
        requires
            old(self).wf(mmu),
        ensures
            final(self).wf(mmu),
            final(self).next_id == old(self).next_id,
            final(self).current == old(self).current,
            r == old(self).tids().contains(tid),
            r ==> ({
                let i = index_of_tid(old(self).tasks@, tid, 0);
                final(self).tasks@ == old(self).tasks@.update(
                    i,
                    Task { context: Context { rip, ..old(self).tasks@[i].context }, ..old(self).tasks@[i] },
                )
            }),
            !r ==> final(self).tasks@ == old(self).tasks@,
    {
        match self.find(tid) {
            Some(i) => {
                let ghost t = old(self).tasks@[i as int];
                let ghost t2 = Task { context: Context { rip, ..t.context }, ..t };
                proof {
                    lemma_index_of_tid(self.tasks@, tid, i as int);
                    lemma_tasks_update(self.tasks@, i as int, t2, mmu);
                }
                self.tasks[i].context.rip = rip;
                assert(self.tasks@ =~= old(self).tasks@.update(i as int, t2));
                assert(old(self).tids()[i as int] == tid);
                true
            },
            None => {
                assert(!self.tids().contains(tid)) by {
                    if self.tids().contains(tid) {
                        let k = choose|k: int| 0 <= k < self.tids().len() && self.tids()[k] == tid;
                        assert(self.tasks@[k].tid == tid);
                    }
                }
                false
            },
        }
    }

    /// Removes every terminated task and releases its context.
    pub fn reap(&mut self, mmu: &mut MMU)
        requires
            old(self).wf(old(mmu)),
        ensures
            final(self).wf(final(mmu)),
            final(self).tasks@ == survivors(old(self).tasks@),
            final(self).next_id == old(self).next_id,
            final(self).current == old(self).current,
            final(mmu).tables@ == old(mmu).tables@,
            final(mmu).memory@ == old(mmu).memory@,
            final(mmu).kernel_pdpt == old(mmu).kernel_pdpt,
            forall|q: int|
                0 <= q < POOL_PAGES ==> #[trigger] final(mmu).pool()[q] == (old(mmu).pool()[q]
                    && !released_page(old(self).tasks@, q)),
            forall|p: int|
                0 <= p < MAX_MAPPED ==> #[trigger] final(mmu).frames()[p] == (old(mmu).frames()[p]
                    && !released_frame(old(self).tasks@, old(mmu), p)),
    {
        let ghost s0 = self.tasks@;
        let ghost m0 = *mmu;
        let ghost n = s0.len() as int;
        let mut kept: Vec<Task> = Vec::new();
        let ghost mut k: int = 0;
        assert(s0.subrange(0, 0) =~= Seq::<Task>::empty());
        assert(self.tasks@ =~= s0.subrange(0, n));
        assert(kept@ + self.tasks@ =~= s0);
        proof {
            assert forall|i: int| 0 <= i < self.tasks@.len() implies (#[trigger] self.tasks@[i]).context.frames(mmu) == self.tasks@[i].context.frames(&m0) by {}
        }
        while self.tasks.len() > 0
            invariant
                0 <= k <= n,
                n == s0.len(),
                self.next_id == old(self).next_id,
                self.current == old(self).current,
                1 <= self.next_id < MAX_TASKS,
                self.tasks@ == s0.subrange(k, n),
                kept@ == survivors(s0.subrange(0, k)),
                mmu.wf(),
                m0.wf(),
                tasks_ok(kept@ + self.tasks@, mmu),
                forall|i: int|
                    0 <= i < self.tasks@.len() ==> (#[trigger] self.tasks@[i]).context.frames(mmu)
                        == self.tasks@[i].context.frames(&m0),
                mmu.tables@ == m0.tables@,
                mmu.memory@ == m0.memory@,
                mmu.kernel_pdpt == m0.kernel_pdpt,
                forall|q: int|
                    0 <= q < POOL_PAGES ==> #[trigger] mmu.pool()[q] == (m0.pool()[q]
                        && !released_page(s0.subrange(0, k), q)),
                forall|p: int|
                    0 <= p < MAX_MAPPED ==> #[trigger] mmu.frames()[p] == (m0.frames()[p]
                        && !released_frame(s0.subrange(0, k), &m0, p)),
            decreases self.tasks@.len(),
        {
            let ghost w = kept@ + self.tasks@;
            let ghost rest0 = self.tasks@;
            let ghost idx = kept@.len() as int;
            let ghost m1 = *mmu;
            let t = self.tasks.remove(0);
            proof {
                assert(t == s0[k]);
                assert(w[idx] == t);
                lemma_survivors_step(s0, k);
                assert forall|q: int| 0 <= q < POOL_PAGES implies released_page(s0.subrange(0, k + 1), q) == (released_page(s0.subrange(0, k), q) || (t.status == TaskStatus::Terminated && owns_page(t.context.layout@, q))) by {
                    lemma_released_step(s0, &m0, k, q);
                }
                assert forall|p: int| 0 <= p < MAX_MAPPED implies released_frame(s0.subrange(0, k + 1), &m0, p) == (released_frame(s0.subrange(0, k), &m0, p) || (t.status == TaskStatus::Terminated && t.context.frames(&m0).contains(p))) by {
                    lemma_released_step(s0, &m0, k, p);
                }
                assert(w[idx].context.wf(mmu));
                assert(t.context.frames(mmu) == t.context.frames(&m0));
            }
            if t.died() {
                t.context.release(mmu);
                proof {
                    lemma_tasks_release(w, idx, &m1, mmu);
                    assert(w.remove(idx) =~= kept@ + self.tasks@);
                    assert forall|i: int| 0 <= i < self.tasks@.len() implies (#[trigger] self.tasks@[i]).context.frames(mmu) == self.tasks@[i].context.frames(&m0) by {
                        assert(w.remove(idx)[idx + i] == self.tasks@[i]);
                        assert(self.tasks@[i] == rest0[i + 1]);
                    }
                }
            } else {
                kept.push(t);
                proof {
                    assert(kept@ + self.tasks@ =~= w);
                    assert forall|i: int| 0 <= i < self.tasks@.len() implies (#[trigger] self.tasks@[i]).context.frames(mmu) == self.tasks@[i].context.frames(&m0) by {
                        assert(self.tasks@[i] == rest0[i + 1]);
                    }
                }
            }
            proof {
                k = k + 1;
                assert(self.tasks@ =~= s0.subrange(k, n));
            }
        }
        self.tasks = kept;
        proof {
            assert(s0.subrange(0, n) =~= s0);
            assert(self.tasks@ + Seq::<Task>::empty() =~= self.tasks@);
        }
    }

    /// Maps a fresh frame into the address space of task `tid` (see
    /// `Context::map`); fails with `ENOENT` when there is no such task.
    pub fn map(&self, mmu: &mut MMU, tid: u64, address: u64) -> (r: Result<u64, Error>)
        requires
            self.wf(old(mmu)),
        ensures
            self.wf(final(mmu)),
            final(mmu).pool() == old(mmu).pool(),
            final(mmu).memory@ == old(mmu).memory@,
            !self.tids().contains(tid) ==> r == Err::<u64, Error>(Error::ENOENT) && *final(mmu) == *old(mmu),
            self.tids().contains(tid) ==> ({
                let c = self.tasks@[index_of_tid(self.tasks@, tid, 0)].context;
                let pt = old(mmu).table(c.layout@.pt as int);
                let idx = crate::context::map_index(pt, address);
                let p = crate::mmu::first_free(old(mmu).frames(), crate::mmu::INITIAL_MAPPED as int, MAX_MAPPED as int);
                if idx >= 512 || crate::mmu::present_entry(pt[idx]) || p >= MAX_MAPPED {
                    &&& r == Err::<u64, Error>(Error::ENOMEM)
                    &&& *final(mmu) == *old(mmu)
                } else {
                    &&& r == Ok::<u64, Error>((idx * 4096) as u64)
                    &&& final(mmu).frames() == old(mmu).frames().update(p, true)
                    &&& final(mmu).table(c.layout@.pt as int) == pt.update(idx, crate::context::leaf_entry(p))
                }
            }),
    {
        match self.find(tid) {
            Some(i) => {
                proof {
                    lemma_index_of_tid(self.tasks@, tid, i as int);
                    assert(self.tasks@[i as int].context.wf(mmu));
                    assert(self.tids()[i as int] == tid);
                }
                let ghost m0 = *mmu;
                let r = self.tasks[i].context.map(mmu, address);
                proof {
                    let p = crate::mmu::first_free(m0.frames(), crate::mmu::INITIAL_MAPPED as int, MAX_MAPPED as int);
                    crate::mmu::lemma_first_free(m0.frames(), crate::mmu::INITIAL_MAPPED as int, MAX_MAPPED as int);
                    lemma_tasks_after_map(self.tasks@, i as int, &m0, mmu, r is Ok, p);
                }
                r
            },
            None => {
                assert(!self.tids().contains(tid)) by {
                    if self.tids().contains(tid) {
                        let k = choose|k: int| 0 <= k < self.tids().len() && self.tids()[k] == tid;
                        assert(self.tasks@[k].tid == tid);
                    }
                }
                Err(Error::ENOENT)
            },
        }
    }

    /// Copies the captured registers into the running task's context;
    /// does nothing when no task runs.
    pub fn store_context(&mut self, mmu: &MMU, ctx: &CapturedContext)
        requires
            old(self).wf(mmu),
        ensures
            final(self).wf(mmu),
            final(self).next_id == old(self).next_id,
            final(self).current == old(self).current,
            old(self).tids().contains(old(self).current) ==> ({
                let i = index_of_tid(old(self).tasks@, old(self).current, 0);
                final(self).tasks@ == old(self).tasks@.update(
                    i,
                    Task { context: stored_context(old(self).tasks@[i].context, *ctx), ..old(self).tasks@[i] },
                )
            }),
            !old(self).tids().contains(old(self).current) ==> final(self).tasks@ == old(self).tasks@,
    {
        match self.find(self.current) {
            Some(i) => {
                let ghost t = old(self).tasks@[i as int];
                let ghost t2 = Task { context: stored_context(t.context, *ctx), ..t };
                proof {
                    lemma_index_of_tid(self.tasks@, self.current, i as int);
                    lemma_tasks_update(self.tasks@, i as int, t2, mmu);
                }
                self.tasks[i].context.store(ctx);
                assert(self.tasks@ =~= old(self).tasks@.update(i as int, t2));
                assert(old(self).tids()[i as int] == self.current);
            },
            None => {
                assert(!self.tids().contains(self.current)) by {
                    if self.tids().contains(self.current) {
                        let k = choose|k: int| 0 <= k < self.tids().len() && self.tids()[k] == self.current;
                        assert(self.tasks@[k].tid == self.current);
                    }
                }
            },
        }
    }

    /// Installs a fresh task in state `Initializing` and returns its
    /// identifier: the first free one from `next_id` on, wrapping from
    /// `MAX_TASKS - 1` to 1.  Fails with `EFULL` when every identifier is
    /// taken and with `ENOMEM` when the task's context cannot be built; the
    /// table is then unchanged.
    pub fn new_task(&mut self, mmu: &mut MMU) -> (r: Result<u64, Error>)
        requires
            old(self).wf(old(mmu)),
        ensures
            final(self).wf(final(mmu)),
            final(self).current == old(self).current,
            final(mmu).memory@ == old(mmu).memory@,
            ({
                let t = free_tid_from(old(self).tids(), old(self).next_id as int, 0);
                if t == 0 {
                    &&& r == Err::<u64, Error>(Error::EFULL)
                    &&& *final(self) == *old(self)
                    &&& *final(mmu) == *old(mmu)
                } else if !can_create(old(mmu)) {
                    &&& r == Err::<u64, Error>(Error::ENOMEM)
                    &&& *final(self) == *old(self)
                    &&& failed_cleanly(old(mmu), final(mmu))
                } else {
                    &&& r == Ok::<u64, Error>(t as u64)
                    &&& final(self).next_id == t
                    &&& exists|pos: int|
                        0 <= pos <= old(self).tasks@.len() && final(self).tasks@ == old(
                            self,
                        ).tasks@.insert(pos, #[trigger] final(self).tasks@[pos])
                            && final(self).tasks@[pos].tid == t && final(self).tasks@[pos].status
                            == TaskStatus::Initializing && final(self).tasks@[pos].exit_code == 0
                            && created(old(mmu), final(mmu), final(self).tasks@[pos].context)
                }
            }),
    {
        let ghost h = self.next_id as int;
        // Find the next free identifier
        let mut alloc_id = self.next_id;
        let mut k: u64 = 0;
        assert(alloc_id == cyclic_tid(h, 0)) by (nonlinear_arith)
            requires
                alloc_id == h,
                1 <= h < MAX_TASKS,
        ;
        while k < MAX_TASKS - 1 && self.contains(alloc_id)
            invariant
                k <= MAX_TASKS - 1,
                1 <= h < MAX_TASKS,
                1 <= alloc_id < MAX_TASKS,
                alloc_id == cyclic_tid(h, k as int),
                free_tid_from(self.tids(), h, 0) == free_tid_from(self.tids(), h, k as int),
            decreases MAX_TASKS - 1 - k,
        {
            let ghost a0 = alloc_id as int;
            alloc_id = alloc_id + 1;
            if alloc_id >= MAX_TASKS {
                alloc_id = 1;
            }
            assert(alloc_id == cyclic_tid(h, k + 1)) by (nonlinear_arith)
                requires
                    a0 == cyclic_tid(h, k as int),
                    1 <= a0 < MAX_TASKS,
                    alloc_id == if a0 + 1 >= MAX_TASKS { 1 } else { a0 + 1 },
                    k >= 0,
                    h >= 1,
            ;
            k += 1;
        }
        if k >= MAX_TASKS - 1 {
            return Err(Error::EFULL);
        }
        let ghost m0 = *mmu;
        let task = match Task::new(alloc_id, mmu) {
            Ok(t) => t,
            Err(e) => {
                proof {
                    lemma_tasks_kept_all(self.tasks@, &m0, mmu);
                }
                return Err(e);
            },
        };
        // Keep the table ordered by identifier
        let mut pos: usize = 0;
        while pos < self.tasks.len() && self.tasks[pos].tid < alloc_id
            invariant
                pos <= self.tasks@.len(),
                forall|j: int| 0 <= j < pos ==> #[trigger] self.tasks@[j].tid < alloc_id,
            decreases self.tasks@.len() - pos,
        {
            pos += 1;
        }
        proof {
            assert(!self.tids().contains(alloc_id));
            assert forall|j: int| pos <= j < self.tasks@.len() implies #[trigger] self.tasks@[j].tid
                > alloc_id by {
                assert(self.tids()[j] == self.tasks@[j].tid);
                if pos < self.tasks@.len() {
                    assert(self.tasks@[pos as int].tid >= alloc_id);
                    assert(self.tids()[pos as int] == self.tasks@[pos as int].tid);
                }
            }
        }
        let ghost old_tasks = self.tasks@;
        self.tasks.insert(pos, task);
        self.next_id = alloc_id;
        proof {
            let s = self.tasks@;
            assert(s == old_tasks.insert(pos as int, s[pos as int]));
            lemma_tasks_after_create(old_tasks, pos as int, s[pos as int], &m0, mmu);
            assert(s[pos as int].tid == alloc_id);
        }
        Ok(alloc_id)
    }
}

/// Identifier uniqueness: the identifiers of a well-formed table are
/// pairwise distinct and lie in `[1, MAX_TASKS)`.  Every operation on the
/// table (`new_task`, `remove`, `reap`, `switch`, ...) keeps it well formed.
pub proof fn lemma_tids_unique(tasks: &TaskList, mmu: &MMU)
    requires
        tasks.wf(mmu),
    ensures
        forall|i: int, j: int|
            0 <= i < tasks.tids().len() && 0 <= j < tasks.tids().len() && i != j
                ==> #[trigger] tasks.tids()[i] != #[trigger] tasks.tids()[j],
        forall|i: int| 0 <= i < tasks.tids().len() ==> 1 <= #[trigger] tasks.tids()[i] < MAX_TASKS,
{
    assert forall|i: int, j: int|
        0 <= i < tasks.tids().len() && 0 <= j < tasks.tids().len() && i != j
            implies #[trigger] tasks.tids()[i] != #[trigger] tasks.tids()[j] by {
        if i < j {
            assert(tasks.tasks@[i].tid < tasks.tasks@[j].tid);
        } else {
            assert(tasks.tasks@[j].tid < tasks.tasks@[i].tid);
        }
    }
    assert forall|i: int| 0 <= i < tasks.tids().len() implies 1 <= #[trigger] tasks.tids()[i]
        < MAX_TASKS by {
        assert(1 <= tasks.tasks@[i].tid < MAX_TASKS);
    }
}

/// Kernel half sharing: entry 511 of every task's PML4 maps the one
/// kernel PDPT, read-write and supervisor-only.
pub proof fn lemma_kernel_half_shared(tasks: &TaskList, mmu: &MMU, a: int, b: int)
    requires
        tasks.wf(mmu),
        0 <= a < tasks.tasks@.len(),
        0 <= b < tasks.tasks@.len(),
    ensures
        mmu.table(tasks.tasks@[a].context.layout@.pml4 as int)[511] == mmu.table(
            tasks.tasks@[b].context.layout@.pml4 as int,
        )[511],
        mmu.table(tasks.tasks@[a].context.layout@.pml4 as int)[511] == crate::mmu::make_entry(
            mmu.kernel_pdpt,
            true,
            false,
            false,
        ),
        crate::mmu::present_entry(mmu.table(tasks.tasks@[a].context.layout@.pml4 as int)[511]),
        crate::mmu::entry_address(mmu.table(tasks.tasks@[a].context.layout@.pml4 as int)[511])
            == mmu.kernel_pdpt,
{
    assert(tasks.tasks@[a].context.wf(mmu));
    assert(tasks.tasks@[b].context.wf(mmu));
    crate::mmu::lemma_make_entry(mmu.kernel_pdpt, true, false, false);
    crate::bits::lemma_entry_fields(mmu.kernel_pdpt, 0);
}

/// Address-space isolation: a user address that is mapped in two different
/// tasks of a well-formed table reaches two different frames there, so a
/// byte written through one task (`Context::write`) leaves what the other
/// reads at that address (`Context::read`) unchanged.
pub proof fn lemma_isolation(tasks: &TaskList, mmu: &MMU, a: int, b: int, v: u64, x: u8)
    requires
        tasks.wf(mmu),
        0 <= a < tasks.tasks@.len(),
        0 <= b < tasks.tasks@.len(),
        a != b,
        v < crate::context::USER_END,
    ensures
        ({
            let ca = tasks.tasks@[a].context;
            let cb = tasks.tasks@[b].context;
            match (
                space_translate(mmu, ca.page_table.0, v),
                space_translate(mmu, cb.page_table.0, v),
            ) {
                (Some(pa), Some(pb)) => pa / 4096 != pb / 4096 && pa != pb && (0 <= pa
                    < mmu.memory@.len() && 0 <= pb < mmu.memory@.len() ==> mmu.memory@.update(
                    pa,
                    x,
                )[pb] == mmu.memory@[pb]),
                _ => true,
            }
        }),
{
    let ca = tasks.tasks@[a].context;
    let cb = tasks.tasks@[b].context;
    assert(ca.wf(mmu) && cb.wf(mmu));
    assert(frames_disjoint(&ca, &cb, mmu));
    lemma_user_translate(&ca, mmu, v);
    lemma_user_translate(&cb, mmu, v);
    match (space_translate(mmu, ca.page_table.0, v), space_translate(mmu, cb.page_table.0, v)) {
        (Some(pa), Some(pb)) => {
            assert(ca.frames(mmu).contains(pa / 4096));
            assert(cb.frames(mmu).contains(pb / 4096));
            assert(!(ca.frames(mmu).contains(pa / 4096) && cb.frames(mmu).contains(pa / 4096)));
            assert(pa / 4096 != pb / 4096);
            assert(pa != pb);
        },
        _ => {},
    }
}

/// Translation of a user address in a well-formed context goes through
/// its own PT and lands in one of its frames.
pub proof fn lemma_user_translate(c: &Context, mmu: &MMU, v: u64)
    requires
        c.wf(mmu),
        v < crate::context::USER_END,
    ensures
        match space_translate(mmu, c.page_table.0, v) {
            Some(pa) => c.frames(mmu).contains(pa / 4096) && pa % 4096 == (v & 0xfffu64),
            None => true,
        },
{
    let l = c.layout@;
    crate::context::lemma_pool_address(l.pml4 as int);
    crate::context::lemma_link_child(l.pdpt as int);
    crate::context::lemma_link_child(l.pd as int);
    crate::context::lemma_link_child(l.pt as int);
    crate::context::lemma_user_indices(v);
    let pt = mmu.table(l.pt as int);
    let k = ((v >> 12u64) & 0x1ffu64) as int;
    crate::bits::lemma_index_bits(v, 12);
    if crate::mmu::present_entry(pt[k]) {
        let f = crate::context::entry_frame(pt[k]);
        crate::context::lemma_leaf(f);
        crate::context::lemma_pt_frames(pt, 512, f);
        let off = (v & 0xfffu64) as int;
        assert(space_translate(mmu, c.page_table.0, v) == Some(f * 4096 + off));
        assert((f * 4096 + off) / 4096 == f && (f * 4096 + off) % 4096 == off) by (nonlinear_arith)
            requires
                0 <= off < 4096,
        ;
    }
}

/// The state of a round of scheduling: the tasks and the position of the
/// running one after `k` switches from position `i`, when every switch
/// finds a candidate.
pub open spec fn rr_state(s: Seq<Task>, i: int, k: nat) -> (Seq<Task>, int)
    decreases k,
{
    if k == 0 {
        (s, i)
    } else {
        let (t, j) = rr_state(s, i, (k - 1) as nat);
        let c = pick_next(t, t[j].tid);
        (
            t.update(j, with_status(t[j], TaskStatus::Ready)).update(
                c,
                with_status(t[c], TaskStatus::Running),
            ),
            c,
        )
    }
}

/// Task position `j` is selected by one of the first `s.len()` switches
/// from position `i`.
pub open spec fn selected_in_round(s: Seq<Task>, i: int, j: int) -> bool {
    exists|k: nat| 1 <= k <= s.len() && #[trigger] rr_state(s, i, k).1 == j
}

/// `s` is ordered by identifier, the task at `i` runs and all others are
/// Ready.
pub open spec fn all_ready_but(s: Seq<Task>, i: int) -> bool {
    &&& 0 <= i < s.len()
    &&& forall|a: int, b: int| 0 <= a < b < s.len() ==> #[trigger] s[a].tid < #[trigger] s[b].tid
    &&& s[i].status == TaskStatus::Running
    &&& forall|j: int| 0 <= j < s.len() && j != i ==> #[trigger] s[j].status == TaskStatus::Ready
}

proof fn lemma_first_ready_at(s: Seq<Task>, cur: u64, above: bool, k: int, m: int)
    requires
        0 <= k <= m <= s.len(),
        forall|x: int| k <= x < m ==> !ready_candidate(#[trigger] s[x], cur, above),
        m < s.len() ==> ready_candidate(s[m], cur, above),
    ensures
        first_ready(s, cur, above, k) == m,
    decreases m - k,
{
    if k < m {
        lemma_first_ready_at(s, cur, above, k + 1, m);
    }
}

proof fn lemma_rr_step(s: Seq<Task>, i: int)
    requires
        all_ready_but(s, i),
        s.len() >= 2,
    ensures
        pick_next(s, s[i].tid) == (i + 1) % (s.len() as int),
        all_ready_but(
            s.update(i, with_status(s[i], TaskStatus::Ready)).update(
                (i + 1) % (s.len() as int),
                with_status(s[(i + 1) % (s.len() as int)], TaskStatus::Running),
            ),
            (i + 1) % (s.len() as int),
        ),
{
    let n = s.len() as int;
    let cur = s[i].tid;
    if i + 1 < n {
        assert forall|x: int| 0 <= x < i + 1 implies !ready_candidate(#[trigger] s[x], cur, true) by {
            if x < i {
                assert(s[x].tid < s[i].tid);
            }
        }
        assert(s[i].tid < s[i + 1].tid);
        lemma_first_ready_at(s, cur, true, 0, i + 1);
        assert((i + 1) % n == i + 1) by (nonlinear_arith)
            requires
                0 <= i,
                i + 1 < n,
        ;
    } else {
        assert forall|x: int| 0 <= x < n implies !ready_candidate(#[trigger] s[x], cur, true) by {
            if x < i {
                assert(s[x].tid < s[i].tid);
            }
        }
        lemma_first_ready_at(s, cur, true, 0, n);
        assert(s[0].tid < s[i].tid);
        lemma_first_ready_at(s, cur, false, 0, 0);
        assert((i + 1) % n == 0) by (nonlinear_arith)
            requires
                i + 1 == n,
                n >= 2,
        ;
    }
    let c = (i + 1) % n;
    let t = s.update(i, with_status(s[i], TaskStatus::Ready)).update(c, with_status(s[c], TaskStatus::Running));
    assert forall|a: int, b: int| 0 <= a < b < t.len() implies #[trigger] t[a].tid < #[trigger] t[b].tid by {
        assert(s[a].tid < s[b].tid);
    }
}

/// Round-robin fairness: with the tasks ordered by identifier, one running
/// and all others Ready, the `k`-th switch (`pick_next`, as `switch` makes
/// it) selects the `k`-th task after the running one, cyclically; so over
/// any window of `K` switches each of the `K` tasks is selected exactly
/// once.
pub proof fn lemma_round_robin(s: Seq<Task>, i: int)
    requires
        all_ready_but(s, i),
        s.len() >= 2,
    ensures
        forall|k: nat|
            #![trigger rr_state(s, i, k)]
            all_ready_but(rr_state(s, i, k).0, rr_state(s, i, k).1) && rr_state(s, i, k).1 == (i + k)
                % (s.len() as int) && rr_state(s, i, k).0.len() == s.len() && tid_seq(rr_state(s, i, k).0) == tid_seq(s),
        forall|j: int| 0 <= j < s.len() ==> #[trigger] selected_in_round(s, i, j),
        forall|k1: nat, k2: nat|
            1 <= k1 <= s.len() && 1 <= k2 <= s.len() && k1 != k2 ==> #[trigger] rr_state(s, i, k1).1
                != #[trigger] rr_state(s, i, k2).1,
{
    let n = s.len() as int;
    assert forall|k: nat|
        #![trigger rr_state(s, i, k)]
        all_ready_but(rr_state(s, i, k).0, rr_state(s, i, k).1) && rr_state(s, i, k).1 == (i + k) % n
            && rr_state(s, i, k).0.len() == s.len() && tid_seq(rr_state(s, i, k).0) == tid_seq(s) by {
        lemma_rr_state(s, i, k);
    }
    assert forall|j: int| 0 <= j < n implies #[trigger] selected_in_round(s, i, j) by {
        let k: nat = if j > i { (j - i) as nat } else { (j - i + n) as nat };
        lemma_rr_state(s, i, k);
        assert((i + k) % n == j) by (nonlinear_arith)
            requires
                0 <= i < n,
                0 <= j < n,
                k == if j > i { j - i } else { j - i + n },
        ;
    }
    assert forall|k1: nat, k2: nat|
        1 <= k1 <= n && 1 <= k2 <= n && k1 != k2 implies #[trigger] rr_state(s, i, k1).1
            != #[trigger] rr_state(s, i, k2).1 by {
        lemma_rr_state(s, i, k1);
        lemma_rr_state(s, i, k2);
        assert((i + k1) % n != (i + k2) % n) by (nonlinear_arith)
            requires
                0 <= i < n,
                1 <= k1 <= n,
                1 <= k2 <= n,
                k1 != k2,
        ;
    }
}

proof fn lemma_rr_state(s: Seq<Task>, i: int, k: nat)
    requires
        all_ready_but(s, i),
        s.len() >= 2,
    ensures
        all_ready_but(rr_state(s, i, k).0, rr_state(s, i, k).1),
        rr_state(s, i, k).1 == (i + k) % (s.len() as int),
        rr_state(s, i, k).0.len() == s.len(),
        tid_seq(rr_state(s, i, k).0) == tid_seq(s),
    decreases k,
{
    let n = s.len() as int;
    if k == 0 {
        assert(i % n == i) by (nonlinear_arith)
            requires
                0 <= i < n,
        ;
    } else {
        lemma_rr_state(s, i, (k - 1) as nat);
        let (t, j) = rr_state(s, i, (k - 1) as nat);
        lemma_rr_step(t, j);
        assert((j + 1) % n == (i + k) % n) by (nonlinear_arith)
            requires
                j == (i + k - 1) % n,
                n >= 2,
                k >= 1,
                i >= 0,
        ;
        let c = (j + 1) % n;
        let t2 = t.update(j, with_status(t[j], TaskStatus::Ready)).update(c, with_status(t[c], TaskStatus::Running));
        assert(tid_seq(t2) =~= tid_seq(t));
    }
}

/// With no terminated task, reaping keeps every task.
pub proof fn lemma_survivors_all(s: Seq<Task>)
    requires
        forall|j: int| 0 <= j < s.len() ==> #[trigger] s[j].status != TaskStatus::Terminated,
    ensures
        survivors(s) == s,
    decreases s.len(),
{
    if s.len() > 0 {
        lemma_survivors_all(s.drop_last());
        assert(s.drop_last().push(s.last()) =~= s);
    }
}

proof fn lemma_index_of_tid(s: Seq<Task>, tid: u64, i: int)
    requires
        0 <= i < s.len(),
        s[i].tid == tid,
        forall|a: int, b: int| 0 <= a < b < s.len() ==> #[trigger] s[a].tid < #[trigger] s[b].tid,
    ensures
        index_of_tid(s, tid, 0) == i,
{
    lemma_index_of_tid_from(s, tid, i, i);
}

proof fn lemma_index_of_tid_from(s: Seq<Task>, tid: u64, i: int, k: int)
    requires
        0 <= i < s.len(),
        0 <= k <= i,
        s[i].tid == tid,
        forall|a: int, b: int| 0 <= a < b < s.len() ==> #[trigger] s[a].tid < #[trigger] s[b].tid,
    ensures
        index_of_tid(s, tid, i - k) == i,
    decreases k,
{
    if k > 0 {
        lemma_index_of_tid_from(s, tid, i, k - 1);
        assert(s[i - k].tid < s[i].tid);
    }
}

proof fn lemma_survivors_step(s: Seq<Task>, k: int)
    requires
        0 <= k < s.len(),
    ensures
        survivors(s.subrange(0, k + 1)) == if s[k].status == TaskStatus::Terminated {
            survivors(s.subrange(0, k))
        } else {
            survivors(s.subrange(0, k)).push(s[k])
        },
{
    assert(s.subrange(0, k + 1).drop_last() =~= s.subrange(0, k));
}

proof fn lemma_released_step(s: Seq<Task>, m: &MMU, k: int, q: int)
    requires
        0 <= k < s.len(),
    ensures
        released_page(s.subrange(0, k + 1), q) == (released_page(s.subrange(0, k), q) || (
        s[k].status == TaskStatus::Terminated && owns_page(s[k].context.layout@, q))),
        released_frame(s.subrange(0, k + 1), m, q) == (released_frame(s.subrange(0, k), m, q) || (
        s[k].status == TaskStatus::Terminated && s[k].context.frames(m).contains(q))),
{
    let a = s.subrange(0, k + 1);
    let b = s.subrange(0, k);
    if released_page(a, q) {
        let j = choose|j: int|
            0 <= j < a.len() && a[j].status == TaskStatus::Terminated && #[trigger] owns_page(
                a[j].context.layout@,
                q,
            );
        if j < k {
            assert(b[j] == a[j]);
        }
    }
    if released_page(b, q) {
        let j = choose|j: int|
            0 <= j < b.len() && b[j].status == TaskStatus::Terminated && #[trigger] owns_page(
                b[j].context.layout@,
                q,
            );
        assert(a[j] == b[j]);
    }
    if s[k].status == TaskStatus::Terminated && owns_page(s[k].context.layout@, q) {
        assert(a[k] == s[k]);
    }
    if released_frame(a, m, q) {
        let j = choose|j: int|
            0 <= j < a.len() && a[j].status == TaskStatus::Terminated
                && #[trigger] a[j].context.frames(m).contains(q);
        if j < k {
            assert(b[j] == a[j]);
        }
    }
    if released_frame(b, m, q) {
        let j = choose|j: int|
            0 <= j < b.len() && b[j].status == TaskStatus::Terminated
                && #[trigger] b[j].context.frames(m).contains(q);
        assert(a[j] == b[j]);
    }
    if s[k].status == TaskStatus::Terminated && s[k].context.frames(m).contains(q) {
        assert(a[k] == s[k]);
    }
}

/// Releasing the context of one task of a well-formed list and dropping
/// it leaves a well-formed list whose other tasks keep their frames.
proof fn lemma_tasks_release(w: Seq<Task>, i: int, m0: &MMU, m1: &MMU)
    requires
        tasks_ok(w, m0),
        0 <= i < w.len(),
        m0.wf(),
        m1.wf(),
        m1.kernel_pdpt == m0.kernel_pdpt,
        m1.tables@ == m0.tables@,
        forall|q: int|
            0 <= q < POOL_PAGES ==> #[trigger] m1.pool()[q] == (m0.pool()[q] && !owns_page(
                w[i].context.layout@,
                q,
            )),
        forall|p: int|
            0 <= p < MAX_MAPPED ==> #[trigger] m1.frames()[p] == (m0.frames()[p]
                && !w[i].context.frames(m0).contains(p)),
    ensures
        tasks_ok(w.remove(i), m1),
        forall|j: int|
            0 <= j < w.remove(i).len() ==> (#[trigger] w.remove(i)[j]).context.frames(m1)
                == w.remove(i)[j].context.frames(m0),
{
    lemma_tasks_remove(w, i, m0);
    let n = w.remove(i);
    assert forall|j: int, q: int|
        0 <= j < n.len() && 0 <= q < POOL_PAGES && #[trigger] owns_page(n[j].context.layout@, q)
            implies m1.pool()[q] && m1.tables@[q] == m0.tables@[q] by {
        let j0 = if j < i { j } else { j + 1 };
        assert(n[j] == w[j0]);
        assert(pages_disjoint(&w[j0].context, &w[i].context));
        assert(w[j0].context.wf(m0));
    }
    assert forall|j: int, p: int|
        0 <= j < n.len() && #[trigger] n[j].context.frames(m0).contains(p) implies m1.frames()[p] by {
        let j0 = if j < i { j } else { j + 1 };
        assert(n[j] == w[j0]);
        assert(frames_disjoint(&w[j0].context, &w[i].context, m0));
        assert(w[j0].context.wf(m0));
        crate::context::lemma_pt_frames(m0.table(w[j0].context.layout@.pt as int), 512, p);
    }
    lemma_tasks_kept(n, m0, m1);
}

/// Changing a task's state or registers, but not its identifier or
/// address space, keeps a list well formed.
proof fn lemma_tasks_update(s: Seq<Task>, i: int, t: Task, m: &MMU)
    requires
        tasks_ok(s, m),
        0 <= i < s.len(),
        t.tid == s[i].tid,
        t.context.layout == s[i].context.layout,
        t.context.page_table == s[i].context.page_table,
        t.context.kernel_stack == s[i].context.kernel_stack,
    ensures
        tasks_ok(s.update(i, t), m),
{
    let n = s.update(i, t);
    assert forall|a: int| 0 <= a < n.len() implies (#[trigger] n[a]).context.wf(m) by {
        assert(s[a].context.wf(m));
    }
    assert forall|a: int, b: int|
        0 <= a < n.len() && 0 <= b < n.len() && a != b implies pages_disjoint(
        &(#[trigger] n[a]).context,
        &(#[trigger] n[b]).context,
    ) && frames_disjoint(&n[a].context, &n[b].context, m) by {
        assert(pages_disjoint(&s[a].context, &s[b].context));
        assert(frames_disjoint(&s[a].context, &s[b].context, m));
    }
    assert forall|a: int, b: int| 0 <= a < b < n.len() implies #[trigger] n[a].tid
        < #[trigger] n[b].tid by {
        assert(s[a].tid < s[b].tid);
    }
}

/// Identifier of the running task.
pub fn current_tid(tasks: &TaskList) -> (r: u64)
    ensures
        r == tasks.current,
{
    tasks.current
}

/// Records `tid` as the identifier of the running task.
pub fn set_current_tid(tasks: &mut TaskList, tid: u64)
    ensures
        final(tasks).current == tid,
        final(tasks).tasks@ == old(tasks).tasks@,
        final(tasks).next_id == old(tasks).next_id,
{
    tasks.current = tid;
}

/// The running task exists and has not terminated.
pub open spec fn running_ok(tasks: &TaskList) -> bool {
    &&& tasks.tids().contains(tasks.current)
    &&& tasks.tasks@[index_of_tid(tasks.tasks@, tasks.current, 0)].status
        != TaskStatus::Terminated
}

/// The scheduler, run on each timer tick with the tick count.  On every
/// `SCHEDULE_TICKS`-th tick it reaps the terminated tasks, then picks the
/// next Ready task round-robin: the running task becomes Ready, the chosen
/// one Running and current, and its identifier is returned so that the
/// caller switches to it.  `None` lets the running task continue.
pub fn switch(tasks: &mut TaskList, mmu: &mut MMU, tick: u64) -> (r: Option<u64>)
    requires
        old(tasks).wf(old(mmu)),
        tick % SCHEDULE_TICKS == 0 ==> running_ok(old(tasks)),
    ensures
        final(tasks).wf(final(mmu)),
        final(tasks).next_id == old(tasks).next_id,
        tick % SCHEDULE_TICKS != 0 ==> r == None::<u64> && *final(tasks) == *old(tasks)
            && *final(mmu) == *old(mmu),
        tick % SCHEDULE_TICKS == 0 ==> ({
            let rest = survivors(old(tasks).tasks@);
            let cur = old(tasks).current;
            let ci = index_of_tid(rest, cur, 0);
            let c = pick_next(rest, cur);
            &&& final(mmu).tables@ == old(mmu).tables@
            &&& final(mmu).memory@ == old(mmu).memory@
            &&& forall|q: int|
                0 <= q < POOL_PAGES ==> #[trigger] final(mmu).pool()[q] == (old(mmu).pool()[q]
                    && !released_page(old(tasks).tasks@, q))
            &&& forall|p: int|
                0 <= p < MAX_MAPPED ==> #[trigger] final(mmu).frames()[p] == (old(mmu).frames()[p]
                    && !released_frame(old(tasks).tasks@, old(mmu), p))
            &&& if ci >= rest.len() || c >= rest.len() {
                &&& r == None::<u64>
                &&& final(tasks).tasks@ == rest
                &&& final(tasks).current == cur
            } else {
                &&& r == Some(rest[c].tid)
                &&& final(tasks).current == rest[c].tid
                &&& final(tasks).tasks@ == rest.update(ci, with_status(rest[ci], TaskStatus::Ready)).update(
                    c,
                    with_status(rest[c], TaskStatus::Running),
                )
            }
        }),
{
    // Act on every fifth tick only
    if tick % SCHEDULE_TICKS != 0 {
        return None;
    }
    // Remove terminated tasks
    tasks.reap(mmu);
    let ghost rest = tasks.tasks@;
    let cur = tasks.current;
    let ci = match tasks.find(cur) {
        Some(i) => i,
        None => {
            proof {
                lemma_index_of_missing(rest, cur, 0);
            }
            return None;
        },
    };
    proof {
        lemma_index_of_tid(rest, cur, ci as int);
    }
    // Round-robin: first Ready task after the current one, else before it
    let len = tasks.tasks.len();
    let mut c: usize = 0;
    while c < len && !(tasks.tasks[c].standby() && tasks.tasks[c].tid > cur)
        invariant
            c <= len,
            len == rest.len(),
            tasks.tasks@ == rest,
            first_ready(rest, cur, true, 0) == first_ready(rest, cur, true, c as int),
        decreases len - c,
    {
        c += 1;
    }
    if c == len {
        c = 0;
        while c < len && !(tasks.tasks[c].standby() && tasks.tasks[c].tid < cur)
            invariant
                c <= len,
                len == rest.len(),
                tasks.tasks@ == rest,
                first_ready(rest, cur, false, 0) == first_ready(rest, cur, false, c as int),
            decreases len - c,
        {
            c += 1;
        }
    }
    assert(c as int == pick_next(rest, cur));
    if c == len {
        return None;
    }
    let next = tasks.tasks[c].tid;
    proof {
        lemma_tasks_update(rest, ci as int, with_status(rest[ci as int], TaskStatus::Ready), mmu);
        let r1 = rest.update(ci as int, with_status(rest[ci as int], TaskStatus::Ready));
        lemma_tasks_update(r1, c as int, with_status(r1[c as int], TaskStatus::Running), mmu);
        assert(c != ci);
    }
    tasks.set_status_at(ci, TaskStatus::Ready);
    tasks.set_status_at(c, TaskStatus::Running);
    tasks.current = next;
    Some(next)
}

proof fn lemma_index_of_missing(s: Seq<Task>, tid: u64, k: int)
    requires
        0 <= k <= s.len(),
        forall|i: int| 0 <= i < s.len() ==> #[trigger] s[i].tid != tid,
    ensures
        index_of_tid(s, tid, k) == s.len(),
    decreases s.len() - k,
{
    if k < s.len() {
        lemma_index_of_missing(s, tid, k + 1);
    }
}

/// A well-formed list stays well formed in a memory state that keeps each
/// task's pages, nodes and frames in use and the kernel PDPT.
proof fn lemma_tasks_kept(s: Seq<Task>, m0: &MMU, m1: &MMU)
    requires
        tasks_ok(s, m0),
        m0.wf(),
        m1.wf(),
        m1.kernel_pdpt == m0.kernel_pdpt,
        forall|j: int, q: int|
            0 <= j < s.len() && 0 <= q < POOL_PAGES && #[trigger] owns_page(s[j].context.layout@, q)
                ==> m1.pool()[q] && m1.tables@[q] == m0.tables@[q],
        forall|j: int, p: int|
            0 <= j < s.len() && #[trigger] s[j].context.frames(m0).contains(p) ==> m1.frames()[p],
    ensures
        tasks_ok(s, m1),
        forall|i: int| 0 <= i < s.len() ==> (#[trigger] s[i]).context.frames(m1) == s[i].context.frames(m0),
{
    assert forall|i: int| 0 <= i < s.len() implies (#[trigger] s[i]).context.wf(m1) && s[i].context.frames(m1) == s[i].context.frames(m0) by {
        let c = s[i].context;
        assert(c.wf(m0));
        assert forall|q: int| 0 <= q < POOL_PAGES && #[trigger] owns_page(c.layout@, q) implies m1.pool()[q] && m1.tables@[q] == m0.tables@[q] by {
            assert(owns_page(s[i].context.layout@, q));
        }
        assert(c.pages_kept(m0, m1));
        assert forall|p: int| c.frames(m0).contains(p) implies #[trigger] m1.frames()[p] by {
            assert(s[i].context.frames(m0).contains(p));
        }
        lemma_context_kept(&c, m0, m1);
    }
    assert forall|i: int, j: int|
        0 <= i < s.len() && 0 <= j < s.len() && i != j implies pages_disjoint(
        &(#[trigger] s[i]).context,
        &(#[trigger] s[j]).context,
    ) && frames_disjoint(&s[i].context, &s[j].context, m1) by {
        assert(s[i].context.frames(m1) == s[i].context.frames(m0));
        assert(s[j].context.frames(m1) == s[j].context.frames(m0));
    }
}

/// A well-formed list stays well formed in a memory state that keeps every
/// page in use with its node, every frame in use and the kernel PDPT.
proof fn lemma_tasks_kept_all(s: Seq<Task>, m0: &MMU, m1: &MMU)
    requires
        tasks_ok(s, m0),
        m0.wf(),
        m1.wf(),
        m1.kernel_pdpt == m0.kernel_pdpt,
        forall|q: int|
            0 <= q < POOL_PAGES && #[trigger] m0.pool()[q] ==> m1.pool()[q] && m1.tables@[q]
                == m0.tables@[q],
        forall|p: int| 0 <= p < MAX_MAPPED && m0.frames()[p] ==> #[trigger] m1.frames()[p],
    ensures
        tasks_ok(s, m1),
        forall|i: int| 0 <= i < s.len() ==> (#[trigger] s[i]).context.frames(m1) == s[i].context.frames(m0),
{
    assert forall|j: int, q: int|
        0 <= j < s.len() && 0 <= q < POOL_PAGES && #[trigger] owns_page(s[j].context.layout@, q)
            implies m1.pool()[q] && m1.tables@[q] == m0.tables@[q] by {
        assert(s[j].context.wf(m0));
        assert(m0.pool()[q]);
    }
    assert forall|j: int, p: int|
        0 <= j < s.len() && #[trigger] s[j].context.frames(m0).contains(p) implies m1.frames()[p] by {
        assert(s[j].context.wf(m0));
        crate::context::lemma_pt_frames(m0.table(s[j].context.layout@.pt as int), 512, p);
    }
    lemma_tasks_kept(s, m0, m1);
}

/// Dropping one task from a well-formed list keeps it well formed.
proof fn lemma_tasks_remove(s: Seq<Task>, i: int, m: &MMU)
    requires
        tasks_ok(s, m),
        0 <= i < s.len(),
    ensures
        tasks_ok(s.remove(i), m),
{
    let n = s.remove(i);
    assert forall|a: int, b: int| 0 <= a < b < n.len() implies #[trigger] n[a].tid < #[trigger] n[b].tid by {
        let a0 = if a < i { a } else { a + 1 };
        let b0 = if b < i { b } else { b + 1 };
        assert(s[a0].tid < s[b0].tid);
    }
    assert forall|a: int| 0 <= a < n.len() implies 1 <= #[trigger] n[a].tid < MAX_TASKS && n[a].context.wf(m) by {
        let a0 = if a < i { a } else { a + 1 };
        assert(n[a] == s[a0]);
    }
    assert forall|a: int, b: int|
        0 <= a < n.len() && 0 <= b < n.len() && a != b implies pages_disjoint(
        &(#[trigger] n[a]).context,
        &(#[trigger] n[b]).context,
    ) && frames_disjoint(&n[a].context, &n[b].context, m) by {
        let a0 = if a < i { a } else { a + 1 };
        let b0 = if b < i { b } else { b + 1 };
        assert(n[a] == s[a0] && n[b] == s[b0]);
    }
}

/// After a page is mapped into task `i`'s address space, the list is still
/// well formed: the other tasks keep their nodes and frames, and the new
/// frame was free.
proof fn lemma_tasks_after_map(s: Seq<Task>, i: int, m0: &MMU, m1: &MMU, changed: bool, p: int)
    requires
        tasks_ok(s, m0),
        0 <= i < s.len(),
        m0.wf(),
        m1.wf(),
        s[i].context.wf(m1),
        m1.pool() == m0.pool(),
        m1.kernel_pdpt == m0.kernel_pdpt,
        forall|j: int|
            0 <= j < POOL_PAGES && j != s[i].context.layout@.pt ==> #[trigger] m1.tables@[j]
                == m0.tables@[j],
        !changed ==> *m1 == *m0,
        changed ==> 0 <= p < MAX_MAPPED && !m0.frames()[p] && m1.frames() == m0.frames().update(
            p,
            true,
        ) && s[i].context.frames(m1) == s[i].context.frames(m0).insert(p),
    ensures
        tasks_ok(s, m1),
{
    if changed {
        lemma_tasks_after_map_changed(s, i, m0, m1, p);
    }
}

proof fn lemma_tasks_after_map_changed(s: Seq<Task>, i: int, m0: &MMU, m1: &MMU, p: int)
    requires
        tasks_ok(s, m0),
        0 <= i < s.len(),
        m0.wf(),
        m1.wf(),
        s[i].context.wf(m1),
        m1.pool() == m0.pool(),
        m1.kernel_pdpt == m0.kernel_pdpt,
        forall|j: int|
            0 <= j < POOL_PAGES && j != s[i].context.layout@.pt ==> #[trigger] m1.tables@[j]
                == m0.tables@[j],
        0 <= p < MAX_MAPPED,
        !m0.frames()[p],
        m1.frames() == m0.frames().update(p, true),
        s[i].context.frames(m1) == s[i].context.frames(m0).insert(p),
    ensures
        tasks_ok(s, m1),
{
    let ci = s[i].context;
    assert forall|j: int| 0 <= j < s.len() implies (#[trigger] s[j]).context.wf(m1) && (j != i ==> s[j].context.frames(m1) == s[j].context.frames(m0)) by {
        if j != i {
            let c = s[j].context;
            assert(c.wf(m0));
            assert(pages_disjoint(&c, &ci));
            assert forall|q: int| 0 <= q < POOL_PAGES && #[trigger] owns_page(c.layout@, q) implies m1.pool()[q] && m1.tables@[q] == m0.tables@[q] by {
                assert(!owns_page(ci.layout@, q));
                assert(owns_page(ci.layout@, ci.layout@.pt as int));
            }
            assert forall|f: int| c.frames(m0).contains(f) implies #[trigger] m1.frames()[f] by {
                crate::context::lemma_pt_frames(m0.table(c.layout@.pt as int), 512, f);
            }
            lemma_context_kept(&c, m0, m1);
        }
    }
    assert forall|a: int, b: int|
        0 <= a < s.len() && 0 <= b < s.len() && a != b implies pages_disjoint(
        &(#[trigger] s[a]).context,
        &(#[trigger] s[b]).context,
    ) && frames_disjoint(&s[a].context, &s[b].context, m1) by {
        assert(frames_disjoint(&s[a].context, &s[b].context, m0));
        if a == i || b == i {
            let o = if a == i { b } else { a };
            assert(s[o].context.wf(m0));
            assert(s[o].context.frames(m1) == s[o].context.frames(m0));
            assert forall|f: int| !(#[trigger] s[a].context.frames(m1).contains(f) && s[b].context.frames(m1).contains(f)) by {
                if s[a].context.frames(m1).contains(f) && s[b].context.frames(m1).contains(f) {
                    assert(s[o].context.frames(m0).contains(f));
                    if f == p {
                        crate::context::lemma_pt_frames(m0.table(s[o].context.layout@.pt as int), 512, f);
                    } else {
                        assert(s[i].context.frames(m1).contains(f));
                        assert(s[i].context.frames(m0).insert(p).contains(f));
                        assert(s[i].context.frames(m0).contains(f));
                        assert(!(s[a].context.frames(m0).contains(f) && s[b].context.frames(m0).contains(f)));
                    }
                }
            }
        }
    }
}

/// Inserting a freshly created task, at the position that keeps the
/// order, into a well-formed list gives a well-formed list.
proof fn lemma_tasks_after_create(s: Seq<Task>, pos: int, t: Task, m0: &MMU, m1: &MMU)
    requires
        tasks_ok(s, m0),
        m0.wf(),
        m1.wf(),
        0 <= pos <= s.len(),
        forall|j: int| 0 <= j < pos ==> #[trigger] s[j].tid < t.tid,
        forall|j: int| pos <= j < s.len() ==> #[trigger] s[j].tid > t.tid,
        1 <= t.tid < MAX_TASKS,
        created(m0, m1, t.context),
        m1.kernel_pdpt == m0.kernel_pdpt,
    ensures
        tasks_ok(s.insert(pos, t), m1),
{
    let n = s.insert(pos, t);
    let l = t.context.layout@;
    assert forall|q: int| 0 <= q < POOL_PAGES && #[trigger] m0.pool()[q] implies m1.pool()[q]
        && m1.tables@[q] == m0.tables@[q] by {
        if owns_page(l, q) {
            assert(!m0.pool()[q]);
        }
    }
    lemma_tasks_kept_all(s, m0, m1);
    assert forall|i: int, j: int|
        0 <= i < n.len() && 0 <= j < n.len() && i != j implies pages_disjoint(
        &(#[trigger] n[i]).context,
        &(#[trigger] n[j]).context,
    ) && frames_disjoint(&n[i].context, &n[j].context, m1) by {
        if i != pos && j != pos {
            let a = if i < pos { i } else { i - 1 };
            let b = if j < pos { j } else { j - 1 };
            assert(n[i] == s[a] && n[j] == s[b]);
            assert(s[a].context.wf(m1) && s[b].context.wf(m1));
        } else {
            let o = if i == pos { j } else { i };
            let a = if o < pos { o } else { o - 1 };
            assert(n[o] == s[a]);
            let c = s[a].context;
            assert(c.wf(m0));
            assert(c.frames(m1) == c.frames(m0));
            assert forall|q: int| !(#[trigger] owns_page(l, q) && owns_page(c.layout@, q)) by {
                if owns_page(l, q) && owns_page(c.layout@, q) {
                    assert(0 <= q < POOL_PAGES);
                    assert(m0.pool()[q]);
                }
            }
            assert forall|p: int| !(#[trigger] t.context.frames(m1).contains(p) && c.frames(m1).contains(p)) by {
                if t.context.frames(m1).contains(p) && c.frames(m1).contains(p) {
                    crate::context::lemma_pt_frames(m0.table(c.layout@.pt as int), 512, p);
                }
            }
        }
    }
}

} // verus!
