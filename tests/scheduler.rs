use frame_sched::executor::{Executor, TaskState, WakeHandle, MAX_QUEUED_TASKS};
use frame_sched::frame_sequencer::{FrameContext, FrameGate, FrameMarker, FrameSequencer};

fn await_tick(gate: &FrameGate, seq: &mut FrameSequencer<u32>, task: usize) -> Option<u32> {
    match gate.poll(seq, WakeHandle { task }) {
        Some(ctx) => {
            let p = ctx.params();
            assert_eq!(ctx.gate(), gate.id());
            ctx.release(seq);
            Some(p)
        }
        None => None,
    }
}

fn tick(marker: &FrameMarker, seq: &mut FrameSequencer<u32>, exec: &mut Executor, p: u32) {
    assert!(seq.can_deliver(exec));
    marker.frame(seq, exec, p);
}

#[test]
fn round_trip_scenario() {
    let mut exec = Executor::new(10);
    let mut seq: FrameSequencer<u32> = FrameSequencer::new();
    let marker = FrameMarker::new();
    let g0 = FrameGate::new(&mut seq, "g0".to_string());
    let g1 = FrameGate::new(&mut seq, "g1".to_string());
    let g2 = FrameGate::new(&mut seq, "g2".to_string());
    assert_eq!((g0.id(), g1.id(), g2.id()), (0, 1, 2));

    tick(&marker, &mut seq, &mut exec, 42);
    for g in [&g0, &g1, &g2] {
        assert_eq!(await_tick(g, &mut seq, 0), Some(42));
    }

    let g3 = FrameGate::new(&mut seq, "g3".to_string());
    assert_eq!(g3.id(), 3);
    tick(&marker, &mut seq, &mut exec, 43);
    for g in [&g0, &g1, &g2, &g3] {
        assert_eq!(await_tick(g, &mut seq, 0), Some(43));
    }

    g1.close(&mut seq);
    tick(&marker, &mut seq, &mut exec, 44);
    for g in [&g0, &g2, &g3] {
        assert_eq!(await_tick(g, &mut seq, 0), Some(44));
    }
    assert_eq!(seq.payload_of(1), None);
    // a second unregister of id 1 is outside remove_gate's domain
    assert!(!seq.is_registered(1));
    assert!(seq.is_registered(0) && seq.is_registered(2) && seq.is_registered(3));
}

#[test]
fn violation_scenario() {
    let mut exec = Executor::new(10);
    let mut seq: FrameSequencer<u32> = FrameSequencer::new();
    let marker = FrameMarker::new();
    let g0 = FrameGate::new(&mut seq, "only".to_string());
    assert_eq!(g0.id(), 0);
    tick(&marker, &mut seq, &mut exec, 1);
    // deliver(2) before gate 0 consumed is a contract violation
    assert!(!seq.can_deliver(&exec));
    assert_eq!(seq.first_pending(), Some(0));
    assert_eq!(seq.payload_of(0), Some(1));
}

#[test]
fn double_delivery_reports_lowest_gate() {
    let mut exec = Executor::new(4);
    let mut seq: FrameSequencer<u32> = FrameSequencer::new();
    let g0 = FrameGate::new(&mut seq, "a".to_string());
    let _g1 = FrameGate::new(&mut seq, "b".to_string());
    let _g2 = FrameGate::new(&mut seq, "c".to_string());
    assert_eq!(seq.first_pending(), None);
    seq.mark_all_running(5, &mut exec);
    assert_eq!(await_tick(&g0, &mut seq, 0), Some(5));
    assert_eq!(seq.first_pending(), Some(1));
    assert!(!seq.can_deliver(&exec));
    assert_eq!(seq.payload_of(0), None);
    assert_eq!(seq.payload_of(2), Some(5));
}

#[test]
fn capacity_boundary() {
    let mut exec = Executor::new(3);
    for i in 0..3 {
        assert!(exec.has_room());
        assert_eq!(exec.spawn(), WakeHandle { task: i });
    }
    // a fourth spawn is a capacity violation
    assert!(!exec.has_room());
    assert_eq!(exec.queued_len(), 3);
    assert_eq!(exec.state(3), None);
}

#[test]
fn capacity_boundary_at_session_size() {
    let mut exec = Executor::new(MAX_QUEUED_TASKS);
    for _ in 0..MAX_QUEUED_TASKS {
        assert!(exec.has_room());
        exec.spawn();
    }
    assert!(!exec.has_room());
    assert_eq!(exec.capacity(), 10000);
    assert_eq!(exec.queued_len(), 10000);
}

#[test]
fn ready_queue_is_first_in_first_out() {
    let mut exec = Executor::new(4);
    let a = exec.spawn();
    let b = exec.spawn();
    let c = exec.spawn();
    assert_eq!(exec.next_ready(), Some(a.task));
    assert_eq!(exec.state(a.task), Some(TaskState::Running));
    exec.park(a.task);
    assert!(exec.can_wake(a));
    exec.wake(a);
    assert_eq!(exec.next_ready(), Some(b.task));
    assert_eq!(exec.next_ready(), Some(c.task));
    assert_eq!(exec.next_ready(), Some(a.task));
    assert_eq!(exec.next_ready(), None);
    assert_eq!(exec.queued_len(), 0);
}

#[test]
fn awaiting_without_delivery_suspends() {
    let mut exec = Executor::new(2);
    let mut seq: FrameSequencer<u32> = FrameSequencer::new();
    let t = exec.spawn();
    assert_eq!(exec.next_ready(), Some(t.task));
    let gate = FrameGate::new(&mut seq, "waiter".to_string());
    assert_eq!(await_tick(&gate, &mut seq, t.task), None);
    exec.park(t.task);
    assert_eq!(exec.state(t.task), Some(TaskState::Parked));

    assert!(seq.can_deliver(&exec));
    seq.mark_all_running(7, &mut exec);
    // the delivery woke the parked task
    assert_eq!(exec.state(t.task), Some(TaskState::Queued));
    assert_eq!(exec.next_ready(), Some(t.task));
    assert_eq!(await_tick(&gate, &mut seq, t.task), Some(7));
    // exactly once: the next await suspends again
    assert_eq!(await_tick(&gate, &mut seq, t.task), None);
    exec.complete(t.task);
    assert_eq!(exec.state(t.task), Some(TaskState::Done));
}

#[test]
fn joining_and_leaving_between_ticks() {
    let mut exec = Executor::new(2);
    let mut seq: FrameSequencer<u32> = FrameSequencer::new();
    let marker = FrameMarker::new();
    let early = FrameGate::new(&mut seq, "early".to_string());
    let leaving = FrameGate::new(&mut seq, "leaving".to_string());
    tick(&marker, &mut seq, &mut exec, 1);
    let late = FrameGate::new(&mut seq, "late".to_string());
    assert_eq!(await_tick(&late, &mut seq, 0), None);
    assert_eq!(await_tick(&early, &mut seq, 0), Some(1));
    let leaving_id = leaving.id();
    assert_eq!(seq.payload_of(leaving_id), Some(1));
    leaving.close(&mut seq);
    tick(&marker, &mut seq, &mut exec, 2);
    assert_eq!(await_tick(&late, &mut seq, 0), Some(2));
    assert_eq!(await_tick(&early, &mut seq, 0), Some(2));
    assert_eq!(seq.payload_of(leaving_id), None);
}

#[test]
fn stale_wake_is_noop() {
    let mut exec = Executor::new(2);
    let mut seq: FrameSequencer<u32> = FrameSequencer::new();
    let t = exec.spawn();
    assert_eq!(exec.next_ready(), Some(t.task));
    let gate = FrameGate::new(&mut seq, "short".to_string());
    assert_eq!(await_tick(&gate, &mut seq, t.task), None);
    let id = gate.id();
    gate.close(&mut seq);
    exec.complete(t.task);

    assert!(exec.can_wake(t));
    exec.wake(t);
    assert_eq!(exec.state(t.task), Some(TaskState::Done));
    assert_eq!(exec.queued_len(), 0);
    exec.wake(WakeHandle { task: 99 });
    assert_eq!(exec.queued_len(), 0);

    // the removed slot cannot take a wake handle again, and stays removed
    assert!(!seq.is_registered(id));
    tick(&FrameMarker::new(), &mut seq, &mut exec, 3);
    assert!(!seq.is_registered(id));
    assert_eq!(seq.payload_of(id), None);
    assert_eq!(exec.next_ready(), None);
}

#[test]
fn finished_entries_are_skipped() {
    let mut exec = Executor::new(3);
    let a = exec.spawn();
    let b = exec.spawn();
    exec.complete(a.task);
    assert_eq!(exec.next_ready(), Some(b.task));
    assert_eq!(exec.queued_len(), 0);
}

#[test]
fn wake_while_running_requeues() {
    let mut exec = Executor::new(2);
    let a = exec.spawn();
    assert_eq!(exec.next_ready(), Some(a.task));
    exec.wake(a);
    exec.park(a.task);
    assert_eq!(exec.state(a.task), Some(TaskState::Queued));
    assert_eq!(exec.next_ready(), Some(a.task));
}

#[test]
fn wake_overflow_is_detected() {
    let mut exec = Executor::new(1);
    let a = exec.spawn();
    assert_eq!(exec.next_ready(), Some(a.task));
    exec.park(a.task);
    let b = exec.spawn();
    assert!(!exec.can_wake(a));
    // a handle that enqueues nothing fits even on a full queue
    assert!(exec.can_wake(b));
    assert_eq!(exec.state(a.task), Some(TaskState::Parked));
}

#[test]
fn delivery_overflow_is_detected() {
    let mut exec = Executor::new(1);
    let mut seq: FrameSequencer<u32> = FrameSequencer::new();
    let a = exec.spawn();
    assert_eq!(exec.next_ready(), Some(a.task));
    let gate = FrameGate::new(&mut seq, "g".to_string());
    assert_eq!(await_tick(&gate, &mut seq, a.task), None);
    exec.park(a.task);
    let b = exec.spawn();
    assert_eq!(seq.first_pending(), None);
    assert!(!seq.can_deliver(&exec));
    assert_eq!(exec.next_ready(), Some(b.task));
    assert!(seq.can_deliver(&exec));
    seq.mark_all_running(9, &mut exec);
    assert_eq!(exec.state(a.task), Some(TaskState::Queued));
    assert_eq!(seq.payload_of(gate.id()), Some(9));
}

#[test]
fn one_task_on_two_gates_is_woken_once() {
    let mut exec = Executor::new(2);
    let mut seq: FrameSequencer<u32> = FrameSequencer::new();
    let a = exec.spawn();
    assert_eq!(exec.next_ready(), Some(a.task));
    let g0 = FrameGate::new(&mut seq, "x".to_string());
    let g1 = FrameGate::new(&mut seq, "y".to_string());
    assert_eq!(await_tick(&g0, &mut seq, a.task), None);
    assert_eq!(await_tick(&g1, &mut seq, a.task), None);
    exec.park(a.task);
    seq.mark_all_running(4, &mut exec);
    assert_eq!(exec.queued_len(), 1);
    assert_eq!(exec.next_ready(), Some(a.task));
}

#[test]
fn registry_operations_by_id() {
    let mut exec = Executor::new(2);
    let mut seq: FrameSequencer<u32> = FrameSequencer::new();
    let g = FrameGate::new(&mut seq, "n".to_string());
    assert_eq!(g.name, "n");
    assert_eq!(seq.register(), 1);
    assert_eq!(seq.len(), 2);
    assert!(!seq.is_registered(5));
    seq.update_waker(1, WakeHandle { task: 0 });
    seq.mark_all_running(8, &mut exec);
    let ctx = FrameContext::new(&seq, 1);
    assert_eq!((ctx.params(), ctx.gate()), (8, 1));
    // the context does not consume the slot; releasing it does
    assert_eq!(seq.payload_of(1), Some(8));
    ctx.release(&mut seq);
    assert_eq!(seq.payload_of(1), None);
    seq.consume(0);
    assert_eq!(seq.payload_of(0), None);
    seq.remove_gate(1);
    assert!(!seq.is_registered(1));
    assert_eq!(seq.len(), 2);
}
