//! A first-in, first-out scheduler.
//!
//! Tasks live in a table that the scheduler owns and are named by their
//! position in it. The ready queue is a sequence of such handles. A task
//! handed out by `pick_next_task` is the caller's to run; it comes back
//! through `put_prev_task`. A task that is done, or was taken out of the
//! queue for good, leaves the table through `retire`; its handle names
//! nothing from then on and is not given out again.

use std::collections::VecDeque;
use vstd::prelude::*;

verus! {

/// The name by which a task is known to the scheduler: its position in the
/// task table.
pub type TaskHandle = usize;

/// A task as the scheduler keeps it: the caller's payload and the number of
/// timer ticks the task has seen while it was running.
pub struct FifoTask<T> {
    inner: T,
    resched_cnt: usize,
}

/// What a [`FifoTask`] holds, as mathematical values.
pub struct FifoTaskView<T> {
    /// The payload.
    pub inner: T,
    /// The reschedule counter.
    pub resched_cnt: nat,
}

impl<T> View for FifoTask<T> {
    type V = FifoTaskView<T>;

    closed spec fn view(&self) -> FifoTaskView<T> {
        FifoTaskView { inner: self.inner, resched_cnt: self.resched_cnt as nat }
    }
}

impl<T> FifoTask<T> {
    /// Wraps a payload in a task that has seen no tick.
    pub fn new(inner: T) -> (r: Self)
        ensures
            r@ == (FifoTaskView { inner, resched_cnt: 0 }),
    {
        Self { inner, resched_cnt: 0 }
    }

    /// Number of timer ticks seen while running.
    pub fn resched_cnt(&self) -> (r: usize)
        ensures
            r == self@.resched_cnt,
    {
        self.resched_cnt
    }

    /// The payload.
    pub fn inner(&self) -> (r: &T)
        ensures
            *r == self@.inner,
    {
        &self.inner
    }
}

impl<T> core::ops::Deref for FifoTask<T> {
    type Target = T;

    /// The payload.
    fn deref(&self) -> (r: &T)
        ensures
            *r == self@.inner,
    {
        &self.inner
    }
}

/// The reschedule counter after one more tick. It counts within a machine
/// word and starts over at zero past the largest value.
pub open spec fn next_tick(ticks: nat) -> nat {
    if ticks >= usize::MAX {
        0
    } else {
        ticks + 1
    }
}

/// Where `put_prev_task` puts a task back: at the front when the task was
/// preempted having seen an even number of ticks, else at the back.
pub open spec fn requeue_at_front(ticks: nat, preempt: bool) -> bool {
    ticks % 2 == 0 && preempt
}

/// The position of the first `handle` in `queue`, or the queue's length if
/// it holds none.
pub open spec fn first_position(queue: Seq<TaskHandle>, handle: TaskHandle) -> int
    decreases queue.len(),
{
    if queue.len() == 0 {
        0
    } else if queue[0] == handle {
        0
    } else {
        1 + first_position(queue.subrange(1, queue.len() as int), handle)
    }
}

/// `first_position` is in range, names `handle` where it is inside the
/// queue, and nothing before it is `handle`.
pub proof fn lemma_first_position(queue: Seq<TaskHandle>, handle: TaskHandle)
    ensures
        0 <= first_position(queue, handle) <= queue.len(),
        first_position(queue, handle) < queue.len() ==> queue[first_position(queue, handle)]
            == handle,
        forall|i: int| 0 <= i < first_position(queue, handle) ==> queue[i] != handle,
        first_position(queue, handle) < queue.len() <==> queue.contains(handle),
    decreases queue.len(),
{
    if queue.len() == 0 {
    } else if queue[0] == handle {
    } else {
        let rest = queue.subrange(1, queue.len() as int);
        lemma_first_position(rest, handle);
        let p = first_position(rest, handle);
        assert forall|i: int| 0 <= i < 1 + p implies queue[i] != handle by {
            if i > 0 {
                assert(queue[i] == rest[i - 1]);
            }
        }
        if p < rest.len() {
            assert(queue[1 + p] == rest[p]);
        }
        if queue.contains(handle) {
            let j = choose|j: int| 0 <= j < queue.len() && queue[j] == handle;
            assert(rest[j - 1] == handle);
            assert(rest.contains(handle));
        }
    }
}

/// What a [`FifoScheduler`] holds, as mathematical values.
#[verifier::ext_equal]
pub struct FifoSchedulerView<T> {
    /// The task table: handle `h` names the task in `tasks[h]`, and no task
    /// once that task was retired.
    pub tasks: Seq<Option<FifoTaskView<T>>>,
    /// The handles of the ready tasks, the next to run first.
    pub ready: Seq<TaskHandle>,
}

impl<T> FifoSchedulerView<T> {
    /// `handle` names a task of the table.
    pub open spec fn is_task(self, handle: TaskHandle) -> bool {
        handle < self.tasks.len() && self.tasks[handle as int] is Some
    }

    /// The reschedule counter of the task that `handle` names.
    pub open spec fn resched_cnt(self, handle: TaskHandle) -> nat {
        self.tasks[handle as int]->0.resched_cnt
    }

    /// Every queued handle names a task of the table, and the table's size
    /// is a machine word.
    pub open spec fn wf(self) -> bool {
        &&& self.tasks.len() <= usize::MAX
        &&& forall|i: int| 0 <= i < self.ready.len() ==> self.is_task(#[trigger] self.ready[i])
    }

    /// No task is queued twice.
    pub open spec fn queued_once(self) -> bool {
        self.ready.no_duplicates()
    }

    /// The state after `add_task(task)`: the task has the next free handle
    /// and stands at the back of the queue.
    pub open spec fn admitted(self, task: FifoTaskView<T>) -> FifoSchedulerView<T> {
        FifoSchedulerView {
            tasks: self.tasks.push(Some(task)),
            ready: self.ready.push(self.tasks.len() as TaskHandle),
        }
    }

    /// What `pick_next_task` returns: the front of the queue, if any.
    pub open spec fn next_task(self) -> Option<TaskHandle> {
        if self.ready.len() > 0 {
            Some(self.ready[0])
        } else {
            None
        }
    }

    /// The state after `pick_next_task`: the front of the queue is gone.
    pub open spec fn picked(self) -> FifoSchedulerView<T> {
        if self.ready.len() > 0 {
            FifoSchedulerView { ready: self.ready.subrange(1, self.ready.len() as int), ..self }
        } else {
            self
        }
    }

    /// The state after `put_prev_task(prev, preempt)`.
    pub open spec fn requeued(self, prev: TaskHandle, preempt: bool) -> FifoSchedulerView<T> {
        if requeue_at_front(self.resched_cnt(prev), preempt) {
            FifoSchedulerView { ready: seq![prev] + self.ready, ..self }
        } else {
            FifoSchedulerView { ready: self.ready.push(prev), ..self }
        }
    }

    /// The state after `task_tick(current)`: the task has seen one more tick.
    pub open spec fn ticked(self, current: TaskHandle) -> FifoSchedulerView<T> {
        let task = self.tasks[current as int]->0;
        FifoSchedulerView {
            tasks: self.tasks.update(
                current as int,
                Some(FifoTaskView { resched_cnt: next_tick(task.resched_cnt), ..task }),
            ),
            ..self
        }
    }

    /// `handle` names a task that can be retired: one that is not queued.
    pub open spec fn can_retire(self, handle: TaskHandle) -> bool {
        self.is_task(handle) && !self.ready.contains(handle)
    }

    /// The state after `retire(handle)`: the task has left the table, if it
    /// could be retired.
    pub open spec fn retired(self, handle: TaskHandle) -> FifoSchedulerView<T> {
        if self.can_retire(handle) {
            FifoSchedulerView { tasks: self.tasks.update(handle as int, None), ..self }
        } else {
            self
        }
    }

    /// The state after `remove_task(handle)`: the first `handle` in the queue
    /// is gone, if there was one.
    pub open spec fn without(self, handle: TaskHandle) -> FifoSchedulerView<T> {
        let at = first_position(self.ready, handle);
        if at < self.ready.len() {
            FifoSchedulerView { ready: self.ready.remove(at), ..self }
        } else {
            self
        }
    }
}

/// A simple FIFO (first-in, first-out) scheduler.
///
/// A task admitted goes to the back of the ready queue, and the task at the
/// front is the next to run. The scheduler has no notion of priority and
/// does no locking: the caller sees to it that one call runs at a time.
pub struct FifoScheduler<T> {
    tasks: Vec<Option<FifoTask<T>>>,
    ready_queue: VecDeque<TaskHandle>,
}

impl<T> View for FifoScheduler<T> {
    type V = FifoSchedulerView<T>;

    closed spec fn view(&self) -> FifoSchedulerView<T> {
        FifoSchedulerView {
            tasks: Seq::new(
                self.tasks@.len(),
                |i: int|
                    match self.tasks@[i] {
                        Some(task) => Some(task@),
                        None => None,
                    },
            ),
            ready: self.ready_queue@,
        }
    }
}

impl<T> FifoScheduler<T> {
    /// Creates a scheduler with no task.
    pub fn new() -> (r: Self)
        ensures
            r@.tasks.len() == 0,
            r@.ready.len() == 0,
            r@.wf(),
    {
        Self { tasks: Vec::new(), ready_queue: VecDeque::new() }
    }

    /// The name of the scheduling policy.
    pub fn scheduler_name() -> (r: &'static str)
        ensures
            r@ == "FIFO"@,
    {
        "FIFO"
    }

    /// Prepares the scheduler for use. There is nothing to prepare.
    pub fn init(&mut self)
        ensures
            final(self)@ == old(self)@,
    {
    }

    /// Admits a task: it enters the task table and joins the back of the
    /// ready queue. Returns the handle by which it is known from now on.
    pub fn add_task(&mut self, task: FifoTask<T>) -> (handle: TaskHandle)
        ensures
            handle == old(self)@.tasks.len(),
            final(self)@ == old(self)@.admitted(task@),
            old(self)@.wf() ==> final(self)@.wf(),
    {
        let handle: TaskHandle = self.tasks.len();
        let ghost admitted = task@;
        self.tasks.push(Some(task));
        self.ready_queue.push_back(handle);
        proof {
            assert(self.tasks.len() == self.tasks@.len());
            assert(self@.tasks =~= old(self)@.tasks.push(Some(admitted)));
        }
        handle
    }

    /// Takes `task` out of the ready queue, looking from the front for the
    /// first entry that names it. Returns the handle if it was queued, `None`
    /// if it was not. The task stays in the table, with its payload, until
    /// it is retired.
    pub fn remove_task(&mut self, task: TaskHandle) -> (r: Option<TaskHandle>)
        ensures
            r == if old(self)@.ready.contains(task) {
                Some(task)
            } else {
                None
            },
            final(self)@ == old(self)@.without(task),
            old(self)@.wf() ==> final(self)@.wf(),
    {
        proof {
            lemma_first_position(self.ready_queue@, task);
        }
        let mut at: usize = 0;
        while at < self.ready_queue.len() && self.ready_queue[at] != task
            invariant
                at <= self.ready_queue@.len(),
                forall|i: int| 0 <= i < at ==> self.ready_queue@[i] != task,
            decreases self.ready_queue@.len() - at,
        {
            at = at + 1;
        }
        proof {
            lemma_first_position_unique(self.ready_queue@, task, at as int);
        }
        let r = if at < self.ready_queue.len() {
            self.ready_queue.remove(at)
        } else {
            None
        };
        proof {
            if old(self)@.wf() {
                assert forall|i: int| 0 <= i < self@.ready.len() implies self@.is_task(
                    #[trigger] self@.ready[i],
                ) by {
                    if r.is_some() && i >= at {
                        assert(self@.ready[i] == old(self)@.ready[i + 1]);
                    } else {
                        assert(self@.ready[i] == old(self)@.ready[i]);
                    }
                }
            }
        }
        r
    }

    /// Takes the task at the front of the ready queue, or `None` if the queue
    /// is empty.
    pub fn pick_next_task(&mut self) -> (r: Option<TaskHandle>)
        ensures
            r == old(self)@.next_task(),
            final(self)@ == old(self)@.picked(),
            old(self)@.wf() ==> final(self)@.wf(),
            old(self)@.wf() ==> (r matches Some(handle) ==> final(self)@.is_task(handle)),
    {
        let r = self.ready_queue.pop_front();
        proof {
            if old(self)@.wf() && r.is_some() {
                assert(old(self)@.is_task(old(self)@.ready[0]));
                assert forall|i: int| 0 <= i < self@.ready.len() implies self@.is_task(
                    #[trigger] self@.ready[i],
                ) by {
                    assert(self@.ready[i] == old(self)@.ready[i + 1]);
                }
            }
        }
        r
    }

    /// Puts the task that was running back in the ready queue: at the front
    /// if it was preempted having seen an even number of ticks, so that a task
    /// cut short keeps its turn; at the back otherwise.
    pub fn put_prev_task(&mut self, prev: TaskHandle, preempt: bool)
        requires
            old(self)@.is_task(prev),
        ensures
            final(self)@ == old(self)@.requeued(prev, preempt),
            old(self)@.wf() ==> final(self)@.wf(),
    {
        let even: bool = match &self.tasks[prev] {
            Some(task) => task.resched_cnt() % 2 == 0,
            None => false,
        };
        if even && preempt {
            self.ready_queue.push_front(prev);
        } else {
            self.ready_queue.push_back(prev);
        }
    }

    /// Notes a timer tick for the running task `current`: its counter goes up
    /// by one. Always reports that rescheduling is in order; whether to
    /// switch is the caller's decision.
    pub fn task_tick(&mut self, current: TaskHandle) -> (r: bool)
        requires
            old(self)@.is_task(current),
        ensures
            r,
            final(self)@ == old(self)@.ticked(current),
            old(self)@.wf() ==> final(self)@.wf(),
    {
        match &mut self.tasks[current] {
            Some(task) => {
                task.resched_cnt = task.resched_cnt.wrapping_add(1);
            },
            None => {},
        }
        proof {
            assert(self@.tasks =~= old(self)@.ticked(current).tasks);
        }
        true
    }

    /// The task that `handle` names, if it names one.
    pub fn task(&self, handle: TaskHandle) -> (r: Option<&FifoTask<T>>)
        ensures
            match r {
                Some(task) => self@.is_task(handle) && Some(task@) == self@.tasks[handle as int],
                None => !self@.is_task(handle),
            },
    {
        if handle < self.tasks.len() {
            self.tasks[handle].as_ref()
        } else {
            None
        }
    }

    /// Retires a task that is done or was removed: it leaves the table and
    /// is handed to the caller, payload and counter. A task that is queued
    /// is not retired, and a handle that names no task retires nothing; both
    /// give `None` and change nothing. The handle names no task afterwards.
    pub fn retire(&mut self, handle: TaskHandle) -> (r: Option<FifoTask<T>>)
        ensures
            match r {
                Some(task) => old(self)@.can_retire(handle) && Some(task@) == old(
                    self,
                )@.tasks[handle as int],
                None => !old(self)@.can_retire(handle),
            },
            final(self)@ == old(self)@.retired(handle),
            old(self)@.wf() ==> final(self)@.wf(),
    {
        if handle >= self.tasks.len() {
            return None;
        }
        let mut at: usize = 0;
        while at < self.ready_queue.len()
            invariant
                at <= self.ready_queue@.len(),
                forall|i: int| 0 <= i < at ==> self.ready_queue@[i] != handle,
                self@ == old(self)@,
            decreases self.ready_queue@.len() - at,
        {
            if self.ready_queue[at] == handle {
                return None;
            }
            at = at + 1;
        }
        let r = self.tasks[handle].take();
        proof {
            assert(self@.tasks =~= old(self)@.retired(handle).tasks);
            if old(self)@.wf() && r.is_some() {
                assert forall|i: int| 0 <= i < self@.ready.len() implies self@.is_task(
                    #[trigger] self@.ready[i],
                ) by {
                    assert(old(self)@.is_task(old(self)@.ready[i]));
                }
            }
        }
        r
    }

    /// Priorities are not offered: reports failure and changes nothing.
    pub fn set_priority(&mut self, task: TaskHandle, prio: isize) -> (r: bool)
        ensures
            !r,
            final(self)@ == old(self)@,
    {
        false
    }
}

/// A position that holds `handle` with no `handle` before it is the first
/// position; the queue's length is, if the queue holds no `handle`.
proof fn lemma_first_position_unique(queue: Seq<TaskHandle>, handle: TaskHandle, at: int)
    requires
        0 <= at <= queue.len(),
        forall|i: int| 0 <= i < at ==> queue[i] != handle,
        at < queue.len() ==> queue[at] == handle,
    ensures
        first_position(queue, handle) == at,
        at < queue.len() <==> queue.contains(handle),
{
    lemma_first_position(queue, handle);
    let p = first_position(queue, handle);
    if p < at {
    } else if p > at {
    }
}

/// Tasks leave in the order in which they were admitted: with nothing
/// queued, admit one task and then another; the first pick gives the first,
/// the second pick the second, and the third finds the queue empty.
pub proof fn law_fifo_order<T>(s: FifoSchedulerView<T>, a: FifoTaskView<T>, b: FifoTaskView<T>)
    requires
        s.ready.len() == 0,
        s.admitted(a).admitted(b).wf(),
    ensures
        s.admitted(a).admitted(b).next_task() == Some(s.tasks.len() as TaskHandle),
        s.admitted(a).admitted(b).picked().next_task() == Some((s.tasks.len() + 1) as TaskHandle),
        s.admitted(a).admitted(b).picked().picked().next_task() == None::<TaskHandle>,
{
}

/// Where a task goes when it is put back. Preempted with an even counter,
/// it stands ahead of everything that was queued; put back without
/// preemption, or with an odd counter, it stands behind everything. The
/// tasks that were queued keep their order either way.
pub proof fn law_requeue_position<T>(s: FifoSchedulerView<T>, prev: TaskHandle, preempt: bool)
    requires
        s.is_task(prev),
    ensures
        preempt && s.resched_cnt(prev) % 2 == 0 ==> {
            &&& s.requeued(prev, preempt).ready[0] == prev
            &&& s.requeued(prev, preempt).ready.subrange(1, s.ready.len() + 1 as int) == s.ready
        },
        !preempt || s.resched_cnt(prev) % 2 == 1 ==> {
            &&& s.requeued(prev, preempt).ready.last() == prev
            &&& s.requeued(prev, preempt).ready.drop_last() == s.ready
        },
        s.requeued(prev, preempt).ready.len() == s.ready.len() + 1,
        s.requeued(prev, preempt).tasks == s.tasks,
{
    if requeue_at_front(s.resched_cnt(prev), preempt) {
        assert((seq![prev] + s.ready).subrange(1, s.ready.len() + 1 as int) =~= s.ready);
    } else {
        assert(s.ready.push(prev).drop_last() =~= s.ready);
    }
}

/// A task is queued at most once as long as only tasks that are not queued
/// are put back: admitting, picking, removing and ticking keep the queue free
/// of duplicates, putting back a task that is not queued does, and a task
/// picked or removed is not queued afterwards.
pub proof fn law_queued_once<T>(
    s: FifoSchedulerView<T>,
    task: FifoTaskView<T>,
    handle: TaskHandle,
    preempt: bool,
)
    requires
        s.wf(),
        s.queued_once(),
    ensures
        s.admitted(task).queued_once(),
        s.picked().queued_once(),
        s.next_task() matches Some(h) ==> !s.picked().ready.contains(h),
        s.without(handle).queued_once(),
        !s.without(handle).ready.contains(handle),
        s.is_task(handle) ==> s.ticked(handle).queued_once(),
        s.is_task(handle) && !s.ready.contains(handle) ==> s.requeued(handle, preempt).queued_once(),
{
    let fresh = s.tasks.len() as TaskHandle;
    assert(s.admitted(task).queued_once()) by {
        assert forall|i: int| 0 <= i < s.ready.len() implies s.ready[i] != fresh by {
            assert(s.is_task(s.ready[i]));
        }
    }
    lemma_first_position(s.ready, handle);
    let at = first_position(s.ready, handle);
    if at < s.ready.len() {
        let rest = s.ready.remove(at);
        assert forall|i: int| 0 <= i < rest.len() implies rest[i] != handle by {
            if i < at {
                assert(rest[i] == s.ready[i]);
            } else {
                assert(rest[i] == s.ready[i + 1]);
            }
        }
        assert forall|i: int, j: int| 0 <= i < rest.len() && 0 <= j < rest.len() && i != j implies rest[i] != rest[j] by {
            let ii = if i < at { i } else { i + 1 };
            let jj = if j < at { j } else { j + 1 };
            assert(rest[i] == s.ready[ii]);
            assert(rest[j] == s.ready[jj]);
        }
    }
    if s.ready.len() > 0 {
        let rest = s.ready.subrange(1, s.ready.len() as int);
        assert forall|i: int| 0 <= i < rest.len() implies rest[i] != s.ready[0] by {
            assert(rest[i] == s.ready[i + 1]);
        }
    }
    if s.is_task(handle) && !s.ready.contains(handle) {
        let front = seq![handle] + s.ready;
        assert forall|i: int, j: int| 0 <= i < front.len() && 0 <= j < front.len() && i != j implies front[i] != front[j] by {
            if i > 0 {
                assert(front[i] == s.ready[i - 1]);
            }
            if j > 0 {
                assert(front[j] == s.ready[j - 1]);
            }
        }
    }
}

/// A task that was retired is gone for good: its handle names no task, it
/// is not queued, it cannot be retired again, and no task admitted later
/// gets the handle. The other tasks and the queue are as they were.
pub proof fn law_retired_for_good<T>(
    s: FifoSchedulerView<T>,
    handle: TaskHandle,
    task: FifoTaskView<T>,
)
    requires
        s.wf(),
        s.can_retire(handle),
        s.tasks.len() < usize::MAX,
    ensures
        s.retired(handle).wf(),
        !s.retired(handle).is_task(handle),
        !s.retired(handle).can_retire(handle),
        s.retired(handle).ready == s.ready,
        forall|other: TaskHandle|
            other != handle ==> s.retired(handle).is_task(other) == s.is_task(other),
        s.retired(handle).admitted(task).ready.last() != handle,
        !s.retired(handle).admitted(task).is_task(handle),
{
    let after = s.retired(handle);
    assert forall|i: int| 0 <= i < after.ready.len() implies after.is_task(
        #[trigger] after.ready[i],
    ) by {
        assert(s.is_task(s.ready[i]));
        assert(s.ready.contains(s.ready[i]));
    }
}

} // verus!
