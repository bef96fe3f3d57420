use vstd::prelude::*;

use crate::ready_queue::{queue_bound, queued_ids, TaskQueue};

verus! {

/// The capacity that a scheduler for an interactive session is sized with.
pub const MAX_QUEUED_TASKS: usize = 10000;

/// Where a task stands in its lifecycle.
#[derive(Debug, Clone, Copy, PartialEq, Eq, Structural)]
pub enum TaskState {
    /// On the ready queue, waiting to be advanced.
    Queued,
    /// Being advanced right now.
    Running,
    /// Off the queue, reachable only through a wake handle it handed out.
    Parked,
    /// Its computation has finished.
    Done,
}

impl TaskState {
    /// A wake puts a task in this state back on the ready queue.
    pub open spec fn wakeable(self) -> bool {
        self is Running || self is Parked
    }
}

/// Names exactly one task; invoking it asks for that task to be advanced again.
#[derive(Debug, Clone, Copy, PartialEq, Eq, Structural)]
pub struct WakeHandle {
    pub task: usize,
}

/// The mathematical state of an executor.
pub struct ExecView {
    /// The state of every task ever spawned, indexed by task id.
    pub tasks: Seq<TaskState>,
    /// The ready queue, oldest first.
    pub queued: Seq<usize>,
    /// How many ids the ready queue holds at most.
    pub capacity: nat,
}

impl ExecView {
    /// The ready queue never exceeds its capacity; it holds ids of known tasks
    /// that are queued or finished (a finished one is skipped when reached);
    /// a task that is not finished is on it at most once, and a queued task is
    /// on it.
    pub open spec fn wf(self) -> bool {
        &&& self.capacity > 0
        &&& self.queued.len() <= self.capacity
        &&& forall|i: int|
            0 <= i < self.queued.len() ==> (self.queued[i] as int) < self.tasks.len() && (
            self.tasks[self.queued[i] as int] is Queued || self.tasks[self.queued[i] as int] is Done)
        &&& forall|i: int, j: int|
            0 <= i < self.queued.len() && 0 <= j < self.queued.len() && i != j && self.queued[i]
                == self.queued[j] ==> self.tasks[self.queued[i] as int] is Done
        &&& forall|t: usize|
            (t as int) < self.tasks.len() && self.tasks[t as int] is Queued ==> self.queued.contains(t)
    }

    /// The executor with no task at all.
    pub open spec fn fresh(capacity: nat) -> ExecView {
        ExecView { tasks: Seq::empty(), queued: Seq::empty(), capacity }
    }

    /// The ready queue can take one more entry.
    pub open spec fn has_room(self) -> bool {
        self.queued.len() < self.capacity
    }

    /// Invoking `h` puts its task back on the ready queue: the task is
    /// running or parked.
    pub open spec fn enqueues(self, h: WakeHandle) -> bool {
        (h.task as int) < self.tasks.len() && self.tasks[h.task as int].wakeable()
    }

    /// Spawning: a new task, queued at the back.
    pub open spec fn spawned(self) -> ExecView {
        ExecView {
            tasks: self.tasks.push(TaskState::Queued),
            queued: self.queued.push(self.tasks.len() as usize),
            capacity: self.capacity,
        }
    }

    /// Waking: a running or parked task goes back on the ready queue; any
    /// other handle (queued, finished, unknown) changes nothing.
    pub open spec fn woken(self, h: WakeHandle) -> ExecView {
        if self.enqueues(h) {
            ExecView {
                tasks: self.tasks.update(h.task as int, TaskState::Queued),
                queued: self.queued.push(h.task),
                capacity: self.capacity,
            }
        } else {
            self
        }
    }

    /// Parking: a running task leaves the processor without being queued;
    /// a task that was woken while it ran stays queued.
    pub open spec fn parked(self, task: usize) -> ExecView {
        let t = task as int;
        if 0 <= t < self.tasks.len() && self.tasks[t] is Running {
            ExecView { tasks: self.tasks.update(t, TaskState::Parked), ..self }
        } else {
            self
        }
    }

    /// Completion: the task is finished for good.
    pub open spec fn completed(self, task: usize) -> ExecView {
        let t = task as int;
        if 0 <= t < self.tasks.len() {
            ExecView { tasks: self.tasks.update(t, TaskState::Done), ..self }
        } else {
            self
        }
    }
}

/// The executor after `n` spawns in a row.
pub open spec fn spawned_times(e: ExecView, n: nat) -> ExecView
    decreases n,
{
    if n == 0 {
        e
    } else {
        spawned_times(e, (n - 1) as nat).spawned()
    }
}

proof fn lemma_spawned_times_len(c: nat, k: nat)
    ensures
        spawned_times(ExecView::fresh(c), k).queued.len() == k,
        spawned_times(ExecView::fresh(c), k).capacity == c,
    decreases k,
{
    if k > 0 {
        lemma_spawned_times_len(c, (k - 1) as nat);
    }
}

/// On a fresh executor of capacity `c`, each of the first `c` spawns finds
/// room on the ready queue; after them the queue is full, so one more spawn
/// is a capacity violation that `spawn` does not admit.
pub proof fn lemma_capacity_boundary(c: nat, k: nat)
    requires
        c > 0,
        k < c,
    ensures
        spawned_times(ExecView::fresh(c), k).has_room(),
        !spawned_times(ExecView::fresh(c), c).has_room(),
{
    lemma_spawned_times_len(c, k);
    lemma_spawned_times_len(c, c);
}

/// Waking a finished task is a no-op, whatever else the executor holds.
pub proof fn lemma_stale_wake_is_noop(e: ExecView, h: WakeHandle)
    requires
        (h.task as int) < e.tasks.len(),
        e.tasks[h.task as int] is Done,
    ensures
        e.woken(h) == e,
{
}

/// A single-threaded executor: the lifecycle of every task and a bounded
/// ready queue. The computations themselves belong to the caller, who
/// advances the task that [`Executor::next_ready`] hands out and reports
/// whether it parked or completed.
pub struct Executor {
    queue: TaskQueue,
    states: Vec<TaskState>,
    capacity: usize,
}

impl View for Executor {
    type V = ExecView;

    closed spec fn view(&self) -> ExecView {
        ExecView { tasks: self.states@, queued: queued_ids(self.queue), capacity: self.capacity as nat }
    }
}

impl Executor {
    /// The queue's own bound is the executor's capacity.
    pub closed spec fn sized(&self) -> bool {
        queue_bound(self.queue) == self.capacity
    }

    /// The executor's invariant: every constructor establishes it and every
    /// method keeps it.
    pub open spec fn wf(&self) -> bool {
        self.sized() && self@.wf()
    }

    /// An executor with no task, whose ready queue holds at most `capacity` tasks.
    pub fn new(capacity: usize) -> (e: Executor)
        requires
            capacity > 0,
        ensures
            e.wf(),
            e@ == ExecView::fresh(capacity as nat),
    {
        let e = Executor { queue: TaskQueue::bounded(capacity), states: Vec::new(), capacity };
        assert(e@.tasks =~= Seq::<TaskState>::empty());
        e
    }

    /// Whether the ready queue can take one more task.
    pub fn has_room(&self) -> (b: bool)
        requires
            self.wf(),
        ensures
            b == self@.has_room(),
    {
        self.queue.len() < self.capacity
    }

    /// Whether invoking `handle` keeps within the ready queue's capacity: it
    /// enqueues nothing, or the queue has room.
    pub fn can_wake(&self, handle: WakeHandle) -> (b: bool)
        requires
            self.wf(),
        ensures
            b == (!self@.enqueues(handle) || self@.has_room()),
    {
        let t = handle.task;
        if t < self.states.len() {
            let s = self.states[t];
            if matches!(s, TaskState::Running) || matches!(s, TaskState::Parked) {
                return self.queue.len() < self.capacity;
            }
        }
        true
    }

    /// Submits a new task and queues it at the back; the call never blocks.
    /// A full ready queue is a capacity violation, outside this function's
    /// domain: work is never dropped.
    pub fn spawn(&mut self) -> (h: WakeHandle)
        requires
            old(self).wf(),
            old(self)@.has_room(),
        ensures
            final(self).wf(),
            final(self)@ == old(self)@.spawned(),
            h == (WakeHandle { task: old(self)@.tasks.len() as usize }),
    {
        let id = self.states.len();
        let pushed = self.queue.try_push(id);
        assert(pushed);
        self.states.push(TaskState::Queued);
        let ghost v = self@;
        assert forall|t: usize| (t as int) < v.tasks.len() && v.tasks[t as int] is Queued implies v.queued.contains(t) by {
            if t < id {
                assert(old(self)@.tasks[t as int] is Queued);
                assert(old(self)@.queued.contains(t));
                let k = choose|k: int| 0 <= k < old(self)@.queued.len() && old(self)@.queued[k] == t;
                assert(v.queued[k] == t);
            } else {
                assert(v.queued[v.queued.len() - 1] == t);
            }
        }
        assert(v.tasks =~= old(self)@.spawned().tasks);
        WakeHandle { task: id }
    }

    /// Invokes a wake handle: a running or parked task goes back on the ready
    /// queue; a handle of a queued, finished or unknown task changes nothing.
    /// A wake that would overflow the ready queue is outside the domain.
    pub fn wake(&mut self, handle: WakeHandle)
        requires
            old(self).wf(),
            old(self)@.enqueues(handle) ==> old(self)@.has_room(),
        ensures
            final(self).wf(),
            final(self)@ == old(self)@.woken(handle),
    {
        let t = handle.task;
        if t < self.states.len() {
            let s = self.states[t];
            if matches!(s, TaskState::Running) || matches!(s, TaskState::Parked) {
                let pushed = self.queue.try_push(t);
                assert(pushed);
                self.states.set(t, TaskState::Queued);
                let ghost v = self@;
                let ghost o = old(self)@;
                assert forall|u: usize| (u as int) < v.tasks.len() && v.tasks[u as int] is Queued implies v.queued.contains(u) by {
                    if u != t {
                        assert(o.tasks[u as int] is Queued);
                        assert(o.queued.contains(u));
                        let k = choose|k: int| 0 <= k < o.queued.len() && o.queued[k] == u;
                        assert(v.queued[k] == u);
                    } else {
                        assert(v.queued[v.queued.len() - 1] == u);
                    }
                }
            }
        }
    }

    /// Takes the next task to advance: entries of finished tasks are dropped
    /// from the front of the ready queue until a queued task comes, which is
    /// now running. `None` when only finished tasks were left.
    pub fn next_ready(&mut self) -> (r: Option<usize>)
        requires
            old(self).wf(),
        ensures
            final(self).wf(),
            final(self)@.capacity == old(self)@.capacity,
            r is None ==> final(self)@.queued.len() == 0 && final(self)@.tasks == old(self)@.tasks
                && forall|i: int|
                0 <= i < old(self)@.queued.len() ==> old(self)@.tasks[old(self)@.queued[i] as int] is Done,
            r matches Some(t) ==> exists|j: int|
                0 <= j < old(self)@.queued.len() && old(self)@.queued[j] == t && (forall|i: int|
                    0 <= i < j ==> old(self)@.tasks[old(self)@.queued[i] as int] is Done)
                    && old(self)@.tasks[t as int] is Queued && final(self)@.queued == old(
                    self,
                )@.queued.subrange(j + 1, old(self)@.queued.len() as int) && final(self)@.tasks
                    == old(self)@.tasks.update(t as int, TaskState::Running),
    {
        let ghost o = old(self)@;
        let ghost mut k: int = 0;
        loop
            invariant
                o == old(self)@,
                self.wf(),
                self@.capacity == o.capacity,
                self@.tasks == o.tasks,
                0 <= k <= o.queued.len(),
                self@.queued == o.queued.subrange(k, o.queued.len() as int),
                forall|i: int| 0 <= i < k ==> o.tasks[o.queued[i] as int] is Done,
            decreases self@.queued.len(),
        {
            let ghost before = self@;
            match self.queue.try_pop() {
                None => {
                    assert(k == o.queued.len());
                    return None;
                },
                Some(t) => {
                    assert(o.queued[k] == t);
                    proof {
                        k = k + 1;
                    }
                    if matches!(self.states[t], TaskState::Done) {
                        let ghost v = self@;
                        assert forall|u: usize| (u as int) < v.tasks.len() && v.tasks[u as int] is Queued implies v.queued.contains(u) by {
                            assert(before.tasks[u as int] is Queued);
                            assert(before.queued.contains(u));
                            let m = choose|m: int| 0 <= m < before.queued.len() && before.queued[m] == u;
                            assert(m != 0);
                            assert(v.queued[m - 1] == u);
                        }
                        assert(v.queued =~= o.queued.subrange(k, o.queued.len() as int));
                    } else {
                        self.states.set(t, TaskState::Running);
                        let ghost v = self@;
                        assert forall|i: int| 0 <= i < v.queued.len() implies v.queued[i] != t by {
                            assert(before.queued[i + 1] == v.queued[i]);
                        }
                        assert forall|u: usize| (u as int) < v.tasks.len() && v.tasks[u as int] is Queued implies v.queued.contains(u) by {
                            assert(before.tasks[u as int] is Queued);
                            assert(before.queued.contains(u));
                            let m = choose|m: int| 0 <= m < before.queued.len() && before.queued[m] == u;
                            assert(m != 0);
                            assert(v.queued[m - 1] == u);
                        }
                        assert(v.queued =~= o.queued.subrange(k, o.queued.len() as int));
                        return Some(t);
                    }
                },
            }
        }
    }

    /// The state of `task`, or `None` for an id that was never handed out.
    pub fn state(&self, task: usize) -> (r: Option<TaskState>)
        ensures
            r == if (task as int) < self@.tasks.len() {
                Some(self@.tasks[task as int])
            } else {
                None
            },
    {
        if task < self.states.len() {
            Some(self.states[task])
        } else {
            None
        }
    }

    /// How many entries the ready queue holds.
    pub fn queued_len(&self) -> (n: usize)
        ensures
            n == self@.queued.len(),
    {
        self.queue.len()
    }

    /// How many entries the ready queue holds at most.
    pub fn capacity(&self) -> (n: usize)
        ensures
            n == self@.capacity,
    {
        self.capacity
    }

    /// Records that the running task `task` returned without finishing.
    pub fn park(&mut self, task: usize)
        requires
            old(self).wf(),
        ensures
            final(self).wf(),
            final(self)@ == old(self)@.parked(task),
    {
        if task < self.states.len() && matches!(self.states[task], TaskState::Running) {
            self.states.set(task, TaskState::Parked);
            let ghost v = self@;
            let ghost o = old(self)@;
            assert forall|u: usize| (u as int) < v.tasks.len() && v.tasks[u as int] is Queued implies v.queued.contains(u) by {
                assert(o.tasks[u as int] is Queued);
            }
        }
        proof {
            let v = self@;
            let o = old(self)@;
            if !(task < o.tasks.len() && o.tasks[task as int] is Running) {
                assert(v =~= o);
            } else {
                assert(v == (ExecView { tasks: o.tasks.update(task as int, TaskState::Parked), ..o }));
            }
        }
    }

    /// Records that `task` finished; any entry of it left on the queue is
    /// skipped when reached.
    pub fn complete(&mut self, task: usize)
        requires
            old(self).wf(),
        ensures
            final(self).wf(),
            final(self)@ == old(self)@.completed(task),
    {
        if task < self.states.len() {
            self.states.set(task, TaskState::Done);
            let ghost v = self@;
            let ghost o = old(self)@;
            assert forall|u: usize| (u as int) < v.tasks.len() && v.tasks[u as int] is Queued implies v.queued.contains(u) by {
                assert(o.tasks[u as int] is Queued);
            }
        }
        proof {
            let v = self@;
            let o = old(self)@;
            if !(task < o.tasks.len()) {
                assert(v =~= o);
            } else {
                assert(v == (ExecView { tasks: o.tasks.update(task as int, TaskState::Done), ..o }));
            }
        }
    }
}

} // verus!
