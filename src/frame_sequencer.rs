use vstd::prelude::*;

use crate::executor::{ExecView, Executor, TaskState, WakeHandle};

verus! {

/// One participant's entry in the registry.
pub struct Slot<T> {
    /// The tick's payload, from its delivery until it is consumed.
    pub payload: Option<T>,
    /// The handle of the task that most recently waited on this slot.
    pub waker: Option<WakeHandle>,
}

/// The registry as a sequence indexed by gate id: `None` once a gate is
/// unregistered. Ids are handed out in order and never reused.
pub type Registry<T> = Seq<Option<Slot<T>>>;

pub open spec fn registered<T>(s: Registry<T>, id: int) -> bool {
    0 <= id < s.len() && s[id] is Some
}

/// Gate `id` holds a delivered payload that has not been consumed.
pub open spec fn pending<T>(s: Registry<T>, id: int) -> bool {
    registered(s, id) && s[id]->Some_0.payload is Some
}

pub open spec fn empty_slot<T>() -> Option<Slot<T>> {
    Some(Slot { payload: None, waker: None })
}

/// The registry after a new gate joined; its id is the old length.
pub open spec fn with_new_gate<T>(s: Registry<T>) -> Registry<T> {
    s.push(empty_slot())
}

/// The registry after gate `id` left.
pub open spec fn without_gate<T>(s: Registry<T>, id: int) -> Registry<T> {
    s.update(id, None)
}

/// Every registered gate now holds `p`; wake handles are kept.
pub open spec fn delivered<T>(s: Registry<T>, p: T) -> Registry<T> {
    Seq::new(
        s.len(),
        |i: int|
            match s[i] {
                Some(sl) => Some(Slot { payload: Some(p), waker: sl.waker }),
                None => None,
            },
    )
}

/// Gate `id` now records `h` as the handle to wake.
pub open spec fn with_waker<T>(s: Registry<T>, id: int, h: WakeHandle) -> Registry<T> {
    s.update(id, Some(Slot { payload: s[id]->Some_0.payload, waker: Some(h) }))
}

/// Gate `id` has consumed its payload.
pub open spec fn consumed<T>(s: Registry<T>, id: int) -> Registry<T> {
    s.update(id, Some(Slot { payload: None, waker: s[id]->Some_0.waker }))
}

/// The payload that an await on gate `id` sees: `None` means it suspends.
pub open spec fn awaited<T>(s: Registry<T>, id: int) -> Option<T> {
    s[id]->Some_0.payload
}

/// Some registered gate among the first `n` records `t` as the task to wake.
pub open spec fn waited_on_within<T>(s: Registry<T>, t: usize, n: int) -> bool {
    exists|i: int| 0 <= i < n && registered(s, i) && s[i]->Some_0.waker == Some(WakeHandle { task: t })
}

/// The tasks that a delivery puts back on the ready queue: running or parked
/// tasks that some registered gate will wake.
pub open spec fn wake_targets<T>(s: Registry<T>, tasks: Seq<TaskState>) -> Set<usize> {
    Set::new(
        |t: usize|
            (t as int) < tasks.len() && tasks[t as int].wakeable() && waited_on_within(
                s,
                t,
                s.len() as int,
            ),
    )
}

/// `n` is `o` after each task of `w` was woken once, in some order.
pub open spec fn woke_all(o: ExecView, n: ExecView, w: Set<usize>) -> bool {
    &&& n.capacity == o.capacity
    &&& n.tasks.len() == o.tasks.len()
    &&& forall|t: usize|
        (t as int) < o.tasks.len() ==> n.tasks[t as int] == if w.contains(t) {
            TaskState::Queued
        } else {
            o.tasks[t as int]
        }
    &&& n.queued.len() == o.queued.len() + w.len()
    &&& n.queued.subrange(0, o.queued.len() as int) == o.queued
    &&& n.queued.subrange(o.queued.len() as int, n.queued.len() as int).no_duplicates()
    &&& n.queued.subrange(o.queued.len() as int, n.queued.len() as int).to_set() == w
}

/// No gate holds an unconsumed payload: a delivery may target every gate.
pub open spec fn none_pending<T>(s: Registry<T>) -> bool {
    forall|i: int| !pending(s, i)
}

fn contains_id(v: &Vec<usize>, x: usize) -> (b: bool)
    ensures
        b == v@.contains(x),
{
    let mut i: usize = 0;
    while i < v.len()
        invariant
            0 <= i <= v@.len(),
            forall|j: int| 0 <= j < i ==> v@[j] != x,
        decreases v@.len() - i,
    {
        if v[i] == x {
            return true;
        }
        i += 1;
    }
    false
}

/// A delivery may take place: no gate still holds an unconsumed payload
/// (a second delivery before consumption is a contract violation), and the
/// ready queue has room for every task the delivery wakes.
pub open spec fn deliverable<T>(s: Registry<T>, e: ExecView) -> bool {
    &&& none_pending(s)
    &&& e.queued.len() + wake_targets(s, e.tasks).len() <= e.capacity
}

/// The outcome of delivering `p` to registry `s0` with executor `e0`, giving
/// `s1` and `e1`: every registered gate holds `p` and every running or parked
/// task that a gate waits on is queued once.
pub open spec fn delivery<T>(s0: Registry<T>, e0: ExecView, p: T, s1: Registry<T>, e1: ExecView) -> bool {
    &&& s1 == delivered(s0, p)
    &&& woke_all(e0, e1, wake_targets(s0, e0.tasks))
}

/// A delivery reaches each registered gate exactly once. Before it, an await
/// on that gate suspends; right after it the await yields the payload; while
/// that payload is unconsumed no second delivery is admitted; once that gate
/// consumes it, the next await suspends again.
pub proof fn lemma_exactly_once_delivery<T>(s: Registry<T>, p: T, id: int, h: WakeHandle)
    requires
        none_pending(s),
        registered(s, id),
    ensures
        awaited(s, id) is None,
        awaited(delivered(s, p), id) == Some(p),
        awaited(consumed(with_waker(delivered(s, p), id, h), id), id) is None,
        !none_pending(with_waker(delivered(s, p), id, h)),
{
    assert(!pending(s, id));
    assert(pending(with_waker(delivered(s, p), id, h), id));
}

/// Membership is read at each delivery: a gate that joins after a tick does
/// not hold that tick's payload and receives the next one; a gate that leaves
/// before a tick is not given it, though its id existed.
pub proof fn lemma_dynamic_membership<T>(s: Registry<T>, t: Registry<T>, p: T, id: int)
    requires
        0 <= id < t.len(),
    ensures
        awaited(with_new_gate(delivered(s, p)), s.len() as int) is None,
        awaited(delivered(with_new_gate(t), p), t.len() as int) == Some(p),
        !registered(delivered(without_gate(t, id), p), id),
{
}

/// A gate once removed stays removed: no delivery brings it back, and it is
/// no longer registered, so `update_waker` does not admit it.
pub proof fn lemma_removed_gate_stays_removed<T>(s: Registry<T>, id: int, p: T)
    requires
        0 <= id < s.len(),
    ensures
        !registered(without_gate(s, id), id),
        !registered(delivered(without_gate(s, id), p), id),
{
}

/// The registry of a frame barrier: one slot per registered gate.
pub struct FrameSequencer<T> {
    slots: Vec<Option<Slot<T>>>,
}

impl<T: Copy> View for FrameSequencer<T> {
    type V = Registry<T>;

    closed spec fn view(&self) -> Registry<T> {
        self.slots@
    }
}

impl<T: Copy> FrameSequencer<T> {
    /// A registry with no gate.
    pub fn new() -> (s: Self)
        ensures
            s@ == Seq::<Option<Slot<T>>>::empty(),
    {
        FrameSequencer { slots: Vec::new() }
    }

    /// How many gate ids were handed out so far.
    pub fn len(&self) -> (n: usize)
        ensures
            n == self@.len(),
    {
        self.slots.len()
    }

    /// Adds an empty slot and returns its id, the next one in order.
    pub fn register(&mut self) -> (id: usize)
        requires
            old(self)@.len() < usize::MAX,
        ensures
            id == old(self)@.len(),
            final(self)@ == with_new_gate(old(self)@),
    {
        let id = self.slots.len();
        self.slots.push(Some(Slot { payload: None, waker: None }));
        id
    }

    /// Whether gate `id` is registered.
    pub fn is_registered(&self, id: usize) -> (b: bool)
        ensures
            b == registered(self@, id as int),
    {
        id < self.slots.len() && self.slots[id].is_some()
    }

    /// Records `waker` as the handle to invoke for gate `id`. An unknown id
    /// is a lifetime bug, outside the domain.
    pub fn update_waker(&mut self, id: usize, waker: WakeHandle)
        requires
            registered(old(self)@, id as int),
        ensures
            final(self)@ == with_waker(old(self)@, id as int, waker),
    {
        let payload = match &self.slots[id] {
            Some(sl) => sl.payload,
            None => None,
        };
        self.slots.set(id, Some(Slot { payload, waker: Some(waker) }));
    }

    /// Removes gate `id` from the registry. Removing an id that is not
    /// registered (a second unregister) is outside the domain.
    pub fn remove_gate(&mut self, id: usize)
        requires
            registered(old(self)@, id as int),
        ensures
            final(self)@ == without_gate(old(self)@, id as int),
    {
        self.slots.set(id, None);
    }

    /// Marks the payload of registered gate `id` consumed.
    pub fn consume(&mut self, id: usize)
        requires
            registered(old(self)@, id as int),
        ensures
            final(self)@ == consumed(old(self)@, id as int),
    {
        let waker = match &self.slots[id] {
            Some(sl) => sl.waker,
            None => None,
        };
        self.slots.set(id, Some(Slot { payload: None, waker }));
    }

    /// What an await on gate `id` sees now.
    pub fn payload_of(&self, id: usize) -> (r: Option<T>)
        ensures
            r == if registered(self@, id as int) {
                awaited(self@, id as int)
            } else {
                None
            },
    {
        if id < self.slots.len() {
            match &self.slots[id] {
                Some(sl) => sl.payload,
                None => None,
            }
        } else {
            None
        }
    }

    /// The tasks that a delivery would wake, each once.
    fn wake_list(&self, exec: &Executor) -> (ts: Vec<usize>)
        ensures
            ts@.no_duplicates(),
            ts@.to_set() == wake_targets(self@, exec@.tasks),
    {
        let ghost tasks = exec@.tasks;
        let mut ts: Vec<usize> = Vec::new();
        let mut i: usize = 0;
        while i < self.slots.len()
            invariant
                0 <= i <= self@.len(),
                tasks == exec@.tasks,
                ts@.no_duplicates(),
                forall|t: usize|
                    ts@.contains(t) <==> ((t as int) < tasks.len() && tasks[t as int].wakeable()
                        && waited_on_within(self@, t, i as int)),
            decreases self@.len() - i,
        {
            let ghost before = ts@;
            let mut found: Option<usize> = None;
            match &self.slots[i] {
                Some(sl) => match sl.waker {
                    Some(h) => {
                        found = Some(h.task);
                    },
                    None => {},
                },
                None => {},
            }
            match found {
                Some(t) => {
                    match exec.state(t) {
                        Some(st) => {
                            if (matches!(st, TaskState::Running) || matches!(st, TaskState::Parked))
                                && !contains_id(&ts, t) {
                                ts.push(t);
                            }
                        },
                        None => {},
                    }
                },
                None => {},
            }
            proof {
                assert forall|t: usize|
                    ts@.contains(t) <==> ((t as int) < tasks.len() && tasks[t as int].wakeable()
                        && waited_on_within(self@, t, i + 1)) by {
                    if registered(self@, i as int) && self@[i as int]->Some_0.waker == Some(
                        WakeHandle { task: t },
                    ) {
                        assert(waited_on_within(self@, t, i + 1));
                    }
                    if waited_on_within(self@, t, i as int) {
                        let j = choose|j: int|
                            0 <= j < i && registered(self@, j) && self@[j]->Some_0.waker
                                == Some(WakeHandle { task: t });
                        assert(waited_on_within(self@, t, i + 1));
                    }
                    if waited_on_within(self@, t, i + 1) {
                        let j = choose|j: int|
                            0 <= j < i + 1 && registered(self@, j) && self@[j]->Some_0.waker
                                == Some(WakeHandle { task: t });
                        if j < i {
                            assert(waited_on_within(self@, t, i as int));
                        }
                    }
                    if ts@.contains(t) {
                        let j = choose|j: int| 0 <= j < ts@.len() && ts@[j] == t;
                        if j < before.len() {
                            assert(before[j] == t);
                            assert(before.contains(t));
                        }
                    }
                    if before.contains(t) {
                        let j = choose|j: int| 0 <= j < before.len() && before[j] == t;
                        assert(ts@[j] == t);
                    }
                    if found == Some(t) && (t as int) < tasks.len() && tasks[t as int].wakeable() && !before.contains(t) {
                        assert(ts@[ts@.len() - 1] == t);
                    }
                }
            }
            i += 1;
        }
        assert(ts@.to_set() =~= wake_targets(self@, tasks));
        ts
    }

    /// Whether a delivery may take place now (see [`deliverable`]).
    pub fn can_deliver(&self, exec: &Executor) -> (b: bool)
        requires
            exec.wf(),
        ensures
            b == deliverable(self@, exec@),
    {
        if self.first_pending().is_some() {
            return false;
        }
        let ts = self.wake_list(exec);
        proof {
            ts@.unique_seq_to_set();
        }
        ts.len() <= exec.capacity() - exec.queued_len()
    }

    /// Delivers `params` to every registered gate and wakes the tasks that
    /// wait on them. A gate still holding the previous tick's payload, or
    /// woken tasks that would overflow the ready queue, are contract
    /// violations outside the domain.
    pub fn mark_all_running(&mut self, params: T, exec: &mut Executor)
        requires
            old(exec).wf(),
            deliverable(old(self)@, old(exec)@),
        ensures
            final(exec).wf(),
            delivery(old(self)@, old(exec)@, params, final(self)@, final(exec)@),
    {
        let ghost o = self@;
        let ghost eo = exec@;
        let ts = self.wake_list(exec);
        let ghost w = wake_targets(o, eo.tasks);
        proof {
            ts@.unique_seq_to_set();
        }
        let mut i: usize = 0;
        while i < self.slots.len()
            invariant
                0 <= i <= o.len(),
                self@.len() == o.len(),
                forall|j: int| 0 <= j < i ==> self@[j] == delivered(o, params)[j],
                forall|j: int| i <= j < o.len() ==> self@[j] == o[j],
            decreases o.len() - i,
        {
            let mut keep: Option<Option<WakeHandle>> = None;
            match &self.slots[i] {
                Some(sl) => {
                    keep = Some(sl.waker);
                },
                None => {},
            }
            match keep {
                Some(waker) => {
                    self.slots.set(i, Some(Slot { payload: Some(params), waker }));
                },
                None => {},
            }
            i += 1;
        }
        assert(self@ =~= delivered(o, params));
        let mut k: usize = 0;
        while k < ts.len()
            invariant
                0 <= k <= ts@.len(),
                exec.wf(),
                eo.wf(),
                exec@.capacity == eo.capacity,
                exec@.tasks.len() == eo.tasks.len(),
                exec@.queued == eo.queued + ts@.subrange(0, k as int),
                forall|t: usize|
                    (t as int) < eo.tasks.len() ==> exec@.tasks[t as int] == if ts@.subrange(
                        0,
                        k as int,
                    ).contains(t) {
                        TaskState::Queued
                    } else {
                        eo.tasks[t as int]
                    },
                eo.queued.len() + ts@.len() <= eo.capacity,
                ts@.no_duplicates(),
                ts@.to_set() == w,
                w == wake_targets(o, eo.tasks),
            decreases ts@.len() - k,
        {
            let t = ts[k];
            let ghost before = exec@;
            proof {
                assert(ts@.to_set().contains(t));
                assert(w.contains(t));
                assert(!ts@.subrange(0, k as int).contains(t)) by {
                    if ts@.subrange(0, k as int).contains(t) {
                        let j = choose|j: int| 0 <= j < k && ts@.subrange(0, k as int)[j] == t;
                        assert(ts@[j] == ts@[k as int]);
                    }
                }
                assert(before.tasks[t as int] == eo.tasks[t as int]);
            }
            exec.wake(WakeHandle { task: t });
            proof {
                let pre = ts@.subrange(0, k as int);
                let post = ts@.subrange(0, k + 1);
                assert(post =~= pre.push(t));
                assert forall|u: usize|
                    (u as int) < eo.tasks.len() implies exec@.tasks[u as int] == if post.contains(u) {
                        TaskState::Queued
                    } else {
                        eo.tasks[u as int]
                    } by {
                    if u != t && post.contains(u) {
                        let j = choose|j: int| 0 <= j < post.len() && post[j] == u;
                        assert(pre[j] == u);
                    }
                    if pre.contains(u) {
                        let j = choose|j: int| 0 <= j < pre.len() && pre[j] == u;
                        assert(post[j] == u);
                    }
                    if u == t {
                        assert(post[k as int] == u);
                    }
                }
                assert(ts@.subrange(0, k + 1) =~= ts@.subrange(0, k as int).push(t));
                assert(exec@.queued =~= eo.queued + ts@.subrange(0, k + 1));
            }
            k += 1;
        }
        proof {
            assert(ts@.subrange(0, ts@.len() as int) =~= ts@);
            assert(exec@.queued.subrange(0, eo.queued.len() as int) =~= eo.queued);
            assert(exec@.queued.subrange(eo.queued.len() as int, exec@.queued.len() as int) =~= ts@);
        }
    }

    /// The lowest gate id that still holds an unconsumed payload.
    pub fn first_pending(&self) -> (r: Option<usize>)
        ensures
            r is None ==> forall|i: int| !pending(self@, i),
            r matches Some(g) ==> pending(self@, g as int) && forall|i: int|
                0 <= i < g ==> !pending(self@, i),
    {
        let mut i: usize = 0;
        while i < self.slots.len()
            invariant
                0 <= i <= self@.len(),
                forall|j: int| 0 <= j < i ==> !pending(self@, j),
            decreases self@.len() - i,
        {
            match &self.slots[i] {
                Some(sl) => {
                    if sl.payload.is_some() {
                        return Some(i);
                    }
                },
                None => {},
            }
            i += 1;
        }
        None
    }
}

/// A participant's handle on its slot. Awaiting it yields each tick's payload
/// once; closing it unregisters the slot.
pub struct FrameGate {
    id: usize,
    pub name: String,
}

impl FrameGate {
    pub closed spec fn gate_id(&self) -> usize {
        self.id
    }

    pub closed spec fn label(&self) -> String {
        self.name
    }

    /// Registers a new gate with `sequencer`.
    pub fn new<T: Copy>(sequencer: &mut FrameSequencer<T>, name: String) -> (g: FrameGate)
        requires
            old(sequencer)@.len() < usize::MAX,
        ensures
            g.gate_id() == old(sequencer)@.len(),
            g.label() == name,
            final(sequencer)@ == with_new_gate(old(sequencer)@),
    {
        let id = sequencer.register();
        FrameGate { id, name }
    }

    pub fn id(&self) -> (r: usize)
        ensures
            r == self.gate_id(),
    {
        self.id
    }

    /// Awaits the next tick: records `waker` for the slot, then yields the
    /// delivered payload, or `None` when none is there and the task must
    /// suspend until it is woken. This gate must still be registered.
    pub fn poll<T: Copy>(&self, sequencer: &mut FrameSequencer<T>, waker: WakeHandle) -> (r: Option<
        FrameContext<T>,
    >)
        requires
            registered(old(sequencer)@, self.gate_id() as int),
        ensures
            final(sequencer)@ == with_waker(old(sequencer)@, self.gate_id() as int, waker),
            match awaited(old(sequencer)@, self.gate_id() as int) {
                Some(p) => (r matches Some(c) && c.payload() == p && c.gate_id() == self.gate_id()),
                None => r is None,
            },
    {
        sequencer.update_waker(self.id, waker);
        if sequencer.payload_of(self.id).is_some() {
            Some(FrameContext::new(sequencer, self.id))
        } else {
            None
        }
    }

    /// Unregisters this gate: later deliveries skip it. Closing is the only
    /// way to drop a gate, so its slot is removed exactly once.
    pub fn close<T: Copy>(self, sequencer: &mut FrameSequencer<T>)
        requires
            registered(old(sequencer)@, self.gate_id() as int),
        ensures
            final(sequencer)@ == without_gate(old(sequencer)@, self.gate_id() as int),
    {
        sequencer.remove_gate(self.id)
    }
}

/// The payload of one tick, borrowed by the task between a successful await
/// and [`FrameContext::release`], which marks the slot consumed.
pub struct FrameContext<T> {
    current_params: T,
    gate: usize,
}

impl<T: Copy> FrameContext<T> {
    pub closed spec fn payload(&self) -> T {
        self.current_params
    }

    pub closed spec fn gate_id(&self) -> usize {
        self.gate
    }

    /// A context over the payload that gate `gate` holds; a payload must be
    /// there. The slot is not consumed until the context is released.
    pub fn new(sequencer: &FrameSequencer<T>, gate: usize) -> (c: FrameContext<T>)
        requires
            pending(sequencer@, gate as int),
        ensures
            Some(c.payload()) == awaited(sequencer@, gate as int),
            c.gate_id() == gate,
    {
        let current_params = sequencer.slots[gate].as_ref().unwrap().payload.unwrap();
        FrameContext { current_params, gate }
    }

    /// The tick's payload.
    pub fn params(&self) -> (p: T)
        ensures
            p == self.payload(),
    {
        self.current_params
    }

    /// Which gate this payload was delivered to.
    pub fn gate(&self) -> (g: usize)
        ensures
            g == self.gate_id(),
    {
        self.gate
    }

    /// Ends the tick for this gate: its slot is consumed and ready for the
    /// next delivery. That gate must still be registered.
    pub fn release(self, sequencer: &mut FrameSequencer<T>)
        requires
            registered(old(sequencer)@, self.gate_id() as int),
        ensures
            final(sequencer)@ == consumed(old(sequencer)@, self.gate_id() as int),
    {
        sequencer.consume(self.gate)
    }
}

/// The one handle that drives ticks into a sequencer.
pub struct FrameMarker {}

impl FrameMarker {
    /// A marker; it carries no state of its own.
    pub fn new() -> (m: FrameMarker) {
        FrameMarker {  }
    }

    /// One tick: delivers `params` to every registered gate and wakes the
    /// tasks waiting on them. The tick must be deliverable: every gate has
    /// consumed the previous payload and the ready queue has room.
    pub fn frame<T: Copy>(&self, sequencer: &mut FrameSequencer<T>, exec: &mut Executor, params: T)
        requires
            old(exec).wf(),
            deliverable(old(sequencer)@, old(exec)@),
        ensures
            final(exec).wf(),
            delivery(old(sequencer)@, old(exec)@, params, final(sequencer)@, final(exec)@),
    {
        sequencer.mark_all_running(params, exec)
    }
}

} // verus!
