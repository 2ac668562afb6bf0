//! The syscall dispatcher: routing, return values, metrics, and the
//! sleep/wake path seen through the trap interface.

use mello_sched::sched::{SchedState, init_scheduler, spawn_task, tick};
use mello_sched::syscall::{
    syscall_dispatcher, sys_write, sys_ipc_send, sys_ipc_recv, SyscallEffect, SYS_WRITE, SYS_EXIT,
    SYS_SLEEP, SYS_IPC_SEND, SYS_IPC_RECV,
};
use mello_sched::metrics::KernelMetrics;
use mello_sched::priority::TaskPriority;
use mello_sched::task::TaskState;

fn boot_with_current() -> (SchedState, KernelMetrics, usize) {
    let mut s = init_scheduler(0x1000, 0x10000, 4096);
    let t = spawn_task(&mut s, "user", 0x2000, TaskPriority::High, 0x100000, 4096).unwrap();
    let _ = tick(&mut s);
    assert_eq!(s.current, Some(t));
    (s, KernelMetrics::new(), t)
}

#[test]
fn write_returns_length_and_counts_once() {
    let (mut s, mut m, _t) = boot_with_current();
    let msg = "Hello from syscall!";
    let r = syscall_dispatcher(&mut s, &mut m, SYS_WRITE, 0, msg.as_ptr() as usize, msg.len());
    assert_eq!(r.0, msg.len() as isize);
    assert_eq!(r.1, SyscallEffect::NoAction);
    assert_eq!(m.syscall_count[SYS_WRITE], 1);
    assert_eq!(m.syscall_count[SYS_SLEEP], 0);
}

#[test]
fn write_rejects_bad_fd_and_empty_buffers() {
    assert_eq!(sys_write(1, 0x5000, 10), -1);
    assert_eq!(sys_write(0, 0, 10), 0);
    assert_eq!(sys_write(0, 0x5000, 0), 0);
    assert_eq!(sys_write(0, 0x5000, 10), 10);
}

#[test]
fn exit_halts_the_caller() {
    let (mut s, mut m, _t) = boot_with_current();
    let r = syscall_dispatcher(&mut s, &mut m, SYS_EXIT, 0, 0, 0);
    assert_eq!(r.1, SyscallEffect::HaltTask);
    assert_eq!(m.syscall_count[SYS_EXIT], 1);
}

#[test]
fn unknown_syscall_is_rejected_uncounted() {
    let (mut s, mut m, t) = boot_with_current();
    let r = syscall_dispatcher(&mut s, &mut m, 9, 1, 2, 3);
    assert_eq!(r.0, -1);
    assert_eq!(r.1, SyscallEffect::NoAction);
    for i in 0..5 {
        assert_eq!(m.syscall_count[i], 0);
    }
    assert_eq!(s.current, Some(t));
}

#[test]
fn ipc_syscalls_report_not_implemented() {
    let (mut s, mut m, _t) = boot_with_current();
    assert_eq!(sys_ipc_send(1, 0x5000, 8), -1);
    assert_eq!(sys_ipc_recv(1, 0x5000, 8), -1);
    let r = syscall_dispatcher(&mut s, &mut m, SYS_IPC_SEND, 1, 0x5000, 8);
    assert_eq!(r.0, -1);
    let r = syscall_dispatcher(&mut s, &mut m, SYS_IPC_RECV, 1, 0x5000, 8);
    assert_eq!(r.0, -1);
    assert_eq!(m.syscall_count[SYS_IPC_SEND], 1);
    assert_eq!(m.syscall_count[SYS_IPC_RECV], 1);
}

#[test]
fn sleep_zero_ticks_is_a_no_op() {
    let (mut s, mut m, t) = boot_with_current();
    let r = syscall_dispatcher(&mut s, &mut m, SYS_SLEEP, 0, 0, 0);
    assert_eq!(r, (0, SyscallEffect::NoAction));
    assert_eq!(s.current, Some(t));
    assert_eq!(m.sleep_count, 0);
    assert_eq!(m.syscall_count[SYS_SLEEP], 1);
}

#[test]
fn sleep_suspends_and_hands_off() {
    let mut s = init_scheduler(0x1000, 0x10000, 4096);
    let a = spawn_task(&mut s, "a", 0x2000, TaskPriority::High, 0x100000, 4096).unwrap();
    let b = spawn_task(&mut s, "b", 0x3000, TaskPriority::Normal, 0x200000, 4096).unwrap();
    let mut m = KernelMetrics::new();
    let _ = tick(&mut s);
    assert_eq!(s.current, Some(a));
    let r = syscall_dispatcher(&mut s, &mut m, SYS_SLEEP, 5, 0, 0);
    assert_eq!(r, (0, SyscallEffect::Switch(Some(a), b)));
    assert_eq!(s.current, Some(b));
    assert_eq!(s.tasks[a].as_ref().unwrap().state, TaskState::Sleeping);
    assert_eq!(m.sleep_count, 1);
    assert_eq!(m.syscall_count[SYS_SLEEP], 1);
}

#[test]
fn sleep_returns_to_correct_queue() {
    // A High task sleeps 50 ticks; only the others run meanwhile; on the
    // 50th tick it returns to the High queue and takes the CPU right back.
    let mut s = init_scheduler(0x1000, 0x10000, 4096);
    let l = spawn_task(&mut s, "low", 0x2000, TaskPriority::Low, 0x100000, 4096).unwrap();
    let n = spawn_task(&mut s, "normal", 0x3000, TaskPriority::Normal, 0x200000, 4096).unwrap();
    let h = spawn_task(&mut s, "high", 0x4000, TaskPriority::High, 0x300000, 4096).unwrap();
    let mut m = KernelMetrics::new();
    let _ = tick(&mut s);
    assert_eq!(s.current, Some(h));
    let r = syscall_dispatcher(&mut s, &mut m, SYS_SLEEP, 50, 0, 0);
    assert_eq!(r.0, 0);
    assert_eq!(s.tasks[h].as_ref().unwrap().state, TaskState::Sleeping);
    // 49 more ticks: H stays asleep, only Normal (and never Low, which is
    // outranked) runs.
    for _ in 0..49 {
        let _ = tick(&mut s);
        assert_ne!(s.current, Some(h));
        assert_eq!(s.current, Some(n));
        assert_eq!(s.tasks[h].as_ref().unwrap().state, TaskState::Sleeping);
        assert_eq!(s.tasks[l].as_ref().unwrap().state, TaskState::Ready);
    }
    // The 50th tick after the sleep call wakes H and schedules it at once.
    let _ = tick(&mut s);
    assert_eq!(s.current, Some(h));
    assert_eq!(s.tasks[h].as_ref().unwrap().state, TaskState::Running);
}

#[test]
fn sleep_table_overflow_reports_error() {
    let (mut s, mut m, t) = boot_with_current();
    // Fill every sleep slot, then ask for one more.
    for i in 0..64usize {
        assert!(s.priority_sched.sleep_task(i, 1000, TaskPriority::Low));
    }
    let r = syscall_dispatcher(&mut s, &mut m, SYS_SLEEP, 5, 0, 0);
    assert_eq!(r, (-1, SyscallEffect::NoAction));
    // The caller keeps running and the failed call was not counted as a
    // sleep (the syscall itself still was).
    assert_eq!(s.current, Some(t));
    assert_eq!(s.tasks[t].as_ref().unwrap().state, TaskState::Running);
    assert_eq!(m.sleep_count, 0);
    assert_eq!(m.syscall_count[SYS_SLEEP], 1);
}

#[test]
fn sleep_with_no_current_task_fails() {
    let mut s = init_scheduler(0x1000, 0x10000, 4096);
    let mut m = KernelMetrics::new();
    let r = syscall_dispatcher(&mut s, &mut m, SYS_SLEEP, 5, 0, 0);
    assert_eq!(r, (-1, SyscallEffect::NoAction));
    assert_eq!(m.sleep_count, 0);
}

#[test]
fn metrics_ignore_out_of_range_ids() {
    let mut m = KernelMetrics::new();
    m.increment_syscall(0);
    m.increment_syscall(4);
    m.increment_syscall(5);
    m.increment_syscall(1000);
    assert_eq!(m.syscall_count, [1, 0, 0, 0, 1]);
    assert_eq!(m.sleep_count, 0);
    assert_eq!(m.timer_ticks, 0);
}
