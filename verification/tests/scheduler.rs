//! End-to-end scheduler scenarios: spawning, round-robin slices, priority
//! preemption, sleeping and waking, yielding.

use mello_sched::sched::{
    SchedState, init_scheduler, spawn_task, schedule_next, yield_now, tick,
    get_current_task_info, run_all_tests, test_spawn_task_adds_to_runqueue,
    test_round_robin_selection, test_multiple_task_switching,
};
use mello_sched::priority::TaskPriority;
use mello_sched::task::{TaskState, SpawnError};

fn boot() -> SchedState {
    init_scheduler(0x1000, 0x10000, 4096)
}

fn spawn(s: &mut SchedState, name: &'static str, prio: TaskPriority) -> usize {
    let id = s.next_tid;
    let entry = 0x2000 + id as u64 * 0x100;
    let stack = 0x100000 + id as u64 * 0x10000;
    spawn_task(s, name, entry, prio, stack, 4096).expect("spawn failed")
}

fn state_of(s: &SchedState, id: usize) -> TaskState {
    s.tasks[id].as_ref().unwrap().state
}

#[test]
fn init_installs_idle_as_task_zero() {
    let s = boot();
    assert_eq!(s.next_tid, 1);
    assert_eq!(s.current, None);
    let idle = s.tasks[0].as_ref().unwrap();
    assert_eq!(idle.id, 0);
    assert_eq!(idle.name, "idle");
    assert_eq!(idle.entry, 0x1000);
    assert_eq!(idle.state, TaskState::Ready);
    assert!(s.tasks[1].is_none());
}

#[test]
fn spawn_assigns_monotonic_ids() {
    let mut s = boot();
    assert_eq!(spawn(&mut s, "a", TaskPriority::Normal), 1);
    assert_eq!(spawn(&mut s, "b", TaskPriority::Low), 2);
    assert_eq!(spawn(&mut s, "c", TaskPriority::High), 3);
    assert_eq!(s.next_tid, 4);
    assert_eq!(state_of(&s, 1), TaskState::Ready);
    assert_eq!(state_of(&s, 2), TaskState::Ready);
    assert_eq!(state_of(&s, 3), TaskState::Ready);
}

#[test]
fn spawn_fails_when_id_space_is_exhausted() {
    let mut s = boot();
    for i in 0..63usize {
        let _ = i;
        let r = spawn_task(&mut s, "filler", 0x2000, TaskPriority::Low, 0x100000, 4096);
        assert!(r.is_ok());
    }
    assert_eq!(s.next_tid, 64);
    let r = spawn_task(&mut s, "one_too_many", 0x2000, TaskPriority::Low, 0x100000, 4096);
    assert_eq!(r, Err(SpawnError::TooManyTasks));
    assert_eq!(s.next_tid, 64);
}

#[test]
fn spawn_fails_on_null_stack() {
    let mut s = boot();
    let r = spawn_task(&mut s, "no_stack", 0x2000, TaskPriority::Normal, 0, 4096);
    assert_eq!(r, Err(SpawnError::OutOfMemory));
    assert_eq!(s.next_tid, 1);
}

#[test]
fn spawn_dispatch_round_trip() {
    // A task spawned into an otherwise empty scheduler is dispatched next.
    let mut s = boot();
    let t = spawn(&mut s, "only", TaskPriority::Normal);
    let sw = schedule_next(&mut s);
    assert_eq!(sw, Some((None, t)));
    assert_eq!(s.current, Some(t));
    assert_eq!(state_of(&s, t), TaskState::Running);
}

#[test]
fn two_tasks_round_robin() {
    // Two tasks at Normal, preemption enabled, one-tick slices: the running
    // sequence is A, B, A, B.
    let mut s = boot();
    let a = spawn(&mut s, "task_a", TaskPriority::Normal);
    let b = spawn(&mut s, "task_b", TaskPriority::Normal);
    let sw = tick(&mut s);
    assert_eq!(sw, Some((None, a)));
    assert_eq!(s.current, Some(a));
    let sw = tick(&mut s);
    assert_eq!(sw, Some((Some(a), b)));
    assert_eq!(s.current, Some(b));
    assert_eq!(state_of(&s, a), TaskState::Ready);
    assert_eq!(state_of(&s, b), TaskState::Running);
    let sw = tick(&mut s);
    assert_eq!(sw, Some((Some(b), a)));
    assert_eq!(s.current, Some(a));
    let sw = tick(&mut s);
    assert_eq!(sw, Some((Some(a), b)));
    assert_eq!(s.current, Some(b));
    assert_eq!(s.priority_sched.current_tick(), 4);
}

#[test]
fn priority_preemption() {
    // Low, Normal and High tasks: after one tick High runs, and the others
    // never run while it stays ready.
    let mut s = boot();
    let l = spawn(&mut s, "low", TaskPriority::Low);
    let n = spawn(&mut s, "normal", TaskPriority::Normal);
    let h = spawn(&mut s, "high", TaskPriority::High);
    let _ = tick(&mut s);
    assert_eq!(s.current, Some(h));
    assert_eq!(state_of(&s, h), TaskState::Running);
    for _ in 0..10 {
        let sw = tick(&mut s);
        // The runnable High task is re-enqueued and immediately re-selected:
        // no switch happens and Low/Normal stay off the CPU.
        assert_eq!(sw, None);
        assert_eq!(s.current, Some(h));
        assert_eq!(state_of(&s, l), TaskState::Ready);
        assert_eq!(state_of(&s, n), TaskState::Ready);
    }
}

#[test]
fn idle_runs_when_nothing_is_ready() {
    let mut s = boot();
    let sw = tick(&mut s);
    assert_eq!(sw, Some((None, 0)));
    assert_eq!(s.current, Some(0));
    assert_eq!(state_of(&s, 0), TaskState::Running);
    // Idle keeps the CPU without ever entering a ready queue.
    let sw = tick(&mut s);
    assert_eq!(sw, None);
    assert_eq!(s.current, Some(0));
    assert_eq!(s.priority_sched.len(), 0);
}

#[test]
fn yield_hands_cpu_to_next_in_queue() {
    // A yields with B behind it at the same priority: B runs, A goes to the
    // back of Normal.
    let mut s = boot();
    let a = spawn(&mut s, "task_a", TaskPriority::Normal);
    let b = spawn(&mut s, "task_b", TaskPriority::Normal);
    let _ = tick(&mut s);
    assert_eq!(s.current, Some(a));
    let sw = yield_now(&mut s);
    assert_eq!(sw, Some((Some(a), b)));
    assert_eq!(s.current, Some(b));
    assert_eq!(state_of(&s, a), TaskState::Ready);
    // A is at the back: the next decision picks it again after B.
    let sw = yield_now(&mut s);
    assert_eq!(sw, Some((Some(b), a)));
    assert_eq!(s.current, Some(a));
}

#[test]
fn current_task_info_snapshot() {
    let mut s = boot();
    assert_eq!(get_current_task_info(&s), None);
    let h = spawn(&mut s, "high", TaskPriority::High);
    let _ = tick(&mut s);
    assert_eq!(get_current_task_info(&s), Some((h, TaskPriority::High)));
}

#[test]
fn preempt_disable_freezes_scheduling_not_time() {
    let mut s = boot();
    let a = spawn(&mut s, "task_a", TaskPriority::Normal);
    let b = spawn(&mut s, "task_b", TaskPriority::Normal);
    let _ = b;
    let _ = tick(&mut s);
    assert_eq!(s.current, Some(a));
    s.priority_sched.preempt_disable();
    for _ in 0..5 {
        let sw = tick(&mut s);
        assert_eq!(sw, None);
        assert_eq!(s.current, Some(a));
    }
    assert_eq!(s.priority_sched.current_tick(), 6);
    s.priority_sched.preempt_enable();
    let sw = tick(&mut s);
    assert!(sw.is_some());
}

#[test]
fn boot_time_smoke_checks_pass() {
    assert!(test_spawn_task_adds_to_runqueue());
    assert!(test_round_robin_selection());
    assert!(test_multiple_task_switching());
    assert!(run_all_tests());
}
