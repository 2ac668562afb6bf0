//! System-call dispatcher and handlers.
//!
//! User code enters the kernel through a software-interrupt vector; the trap
//! stub outside this library saves the register frame, marshals the syscall
//! id and three arguments out of the registers, and calls the dispatcher.
//! The dispatcher routes by id and returns the value to place back in the
//! accumulator, together with the action the stub must perform afterwards:
//! nothing, a context switch (a sleeping caller gave up the CPU), or halting
//! the calling task. Writing the logged bytes to the serial port is the
//! stub's side of `sys_write`; the handler here validates and computes the
//! return value.

use vstd::prelude::*;
use crate::task::{TaskId, MAX_TASKS};
use crate::priority::SleepingTask;
use crate::metrics::{KernelMetrics, same_but_syscalls};
use crate::sched::{
    SchedState, sched_unchanged, with_state, get_current_task_info, sleep_current_task, yield_now,
    requeues, after_requeue_q, next_choice,
};
use crate::counting::{occ, lemma_occ_member};
use crate::task::TaskState;

verus! {

pub const SYS_WRITE: usize = 0;

pub const SYS_EXIT: usize = 1;

pub const SYS_SLEEP: usize = 2;

pub const SYS_IPC_SEND: usize = 3;

pub const SYS_IPC_RECV: usize = 4;

/// What the trap stub must do after the dispatcher returns.
#[derive(Debug, Clone, Copy, PartialEq, Eq)]
pub enum SyscallEffect {
    /// Return to the caller with the value in the accumulator.
    NoAction,
    /// Perform a context switch between these tasks, then return when the
    /// caller is scheduled again. A missing outgoing side is the boot-time
    /// first dispatch and cannot arise from a syscall.
    Switch(Option<TaskId>, TaskId),
    /// The calling task exits; do not return to it.
    HaltTask,
}

/// Validate and size a write to the serial console. Only file descriptor 0
/// is backed; a null buffer or an empty length writes nothing. The trap stub
/// performs the actual output when the returned count is positive.
pub fn sys_write(fd: usize, buf_ptr: usize, len: usize) -> (r: isize)
    requires
        len <= isize::MAX as usize,
    ensures
        fd != 0 ==> r == -1,
        fd == 0 && (buf_ptr == 0 || len == 0) ==> r == 0,
        fd == 0 && buf_ptr != 0 && len > 0 ==> r == len as isize,
{
    if fd != 0 {
        return -1;
    }
    if buf_ptr == 0 || len == 0 {
        return 0;
    }
    len as isize
}

/// IPC send: not implemented in this revision; always a negative error.
pub fn sys_ipc_send(port_id: usize, buf_ptr: usize, len: usize) -> (r: isize)
    ensures
        r == -1,
{
    let _ = port_id;
    let _ = buf_ptr;
    let _ = len;
    -1
}

/// IPC receive: not implemented in this revision; always a negative error.
pub fn sys_ipc_recv(port_id: usize, buf_ptr: usize, len: usize) -> (r: isize)
    ensures
        r == -1,
{
    let _ = port_id;
    let _ = buf_ptr;
    let _ = len;
    -1
}

/// The task the scheduler picks when the sleeping caller gives up the CPU:
/// the front of the highest non-empty ready queue, or idle.
pub open spec fn sleep_handoff(s: SchedState) -> TaskId {
    let top = s.priority_sched.top_priority();
    if top >= 0 {
        s.q(top)[0]
    } else {
        0
    }
}

/// Put the calling task to sleep for `ticks` timer ticks. Zero ticks is a
/// no-op; a full sleep table is reported as -1 with the caller still
/// running and the sleep counter untouched. On success the caller is
/// recorded at its own priority, marked `Sleeping`, and the CPU is handed to
/// the next ready task (or idle).
#[verifier::rlimit(50)]
pub fn sys_sleep(state: &mut SchedState, metrics: &mut KernelMetrics, ticks: usize) -> (r: (
    isize,
    SyscallEffect,
))
    requires
        old(state).wf(),
        match old(state).current {
            Some(c) => c != 0 && old(state).state_of(c as int) is Running,
            None => true,
        },
        old(state).tick_count() + ticks as u64 <= u64::MAX,
        old(metrics).sleep_count < usize::MAX,
    ensures
        final(state).wf(),
        ticks == 0 ==> r == (0isize, SyscallEffect::NoAction) && sched_unchanged(
            *old(state),
            *final(state),
        ) && *final(metrics) == *old(metrics),
        ticks > 0 && old(state).current is None ==> r == (-1isize, SyscallEffect::NoAction)
            && sched_unchanged(*old(state), *final(state)) && *final(metrics) == *old(metrics),
        ticks > 0 && old(state).current is Some && (forall|j: int|
            0 <= j < MAX_TASKS ==> (#[trigger] old(state).sleepers()[j]).valid) ==> r == (
        -1isize,
        SyscallEffect::NoAction,
        ) && sched_unchanged(*old(state), *final(state)) && *final(metrics) == *old(metrics),
        ticks > 0 && old(state).current is Some && (exists|j: int|
            0 <= j < MAX_TASKS && !(#[trigger] old(state).sleepers()[j]).valid) ==> {
            let s0 = *old(state);
            let c = s0.current.unwrap();
            let n = sleep_handoff(s0);
            &&& r == (0isize, SyscallEffect::Switch(Some(c), n))
            &&& final(metrics).sleep_count == old(metrics).sleep_count + 1
            &&& final(metrics).syscall_count == old(metrics).syscall_count
            &&& exists|j: int|
                {
                    &&& 0 <= j < MAX_TASKS
                    &&& !(#[trigger] s0.sleepers()[j]).valid
                    &&& final(state).sleepers() == s0.sleepers().update(
                        j,
                        SleepingTask {
                            task_id: c,
                            wake_tick: (s0.tick_count() + ticks as u64) as u64,
                            priority: s0.prio_of(c as int),
                            valid: true,
                        },
                    )
                }
            &&& final(state).tasks@[c as int] == Some(
                with_state(s0.tasks@[c as int].unwrap(), TaskState::Sleeping),
            )
            &&& final(state).tasks@[n as int] == Some(
                with_state(s0.tasks@[n as int].unwrap(), TaskState::Running),
            )
            &&& forall|i: int|
                0 <= i < MAX_TASKS && i != c && i != n ==> final(state).tasks@[i] == s0.tasks@[i]
            &&& final(state).current == Some(n)
            &&& forall|p: int|
                0 <= p < 3 ==> final(state).q(p) == (if p == s0.priority_sched.top_priority() {
                    s0.q(p).drop_first()
                } else {
                    s0.q(p)
                })
            &&& final(state).next_tid == s0.next_tid
            &&& final(state).tick_count() == s0.tick_count()
            &&& final(state).priority_sched.preempt_disable_count
                == s0.priority_sched.preempt_disable_count
        },
{
    let ghost s0 = *old(state);
    if ticks == 0 {
        return (0, SyscallEffect::NoAction);
    }
    let info = get_current_task_info(state);
    match info {
        None => (-1, SyscallEffect::NoAction),
        Some((task_id, priority)) => {
            let ok = sleep_current_task(state, ticks as u64, priority);
            if !ok {
                return (-1, SyscallEffect::NoAction);
            }
            metrics.sleep_count = metrics.sleep_count + 1;
            let ghost sl = *state;
            proof {
                assert(!requeues(sl));
                assert forall|p: int| 0 <= p < 3 implies #[trigger] after_requeue_q(sl, p) == s0.q(
                    p,
                ) by {}
                assert(crate::sched::requeue_top(sl) == s0.priority_sched.top_priority());
                assert(next_choice(sl) == sleep_handoff(s0));
                let n = sleep_handoff(s0);
                if s0.priority_sched.top_priority() >= 0 {
                    let top = s0.priority_sched.top_priority();
                    lemma_occ_member(s0.q(top), n, s0.q(top).len() as int);
                    assert(occ(s0.q(top), n) >= 1);
                    assert(s0.task_partition(task_id));
                    assert(s0.ready_occ(task_id) == 0);
                    assert(occ(s0.q(top), task_id) == 0);
                    assert(n != task_id);
                } else {
                    assert(n == 0 && task_id != 0);
                }
            }
            let sw = yield_now(state);
            proof {
                let sf = *state;
                let n = sleep_handoff(s0);
                assert(sf.tasks@[task_id as int] == crate::sched::sched_task_after(
                    sl,
                    task_id as int,
                ));
                assert(sf.tasks@[n as int] == crate::sched::sched_task_after(sl, n as int));
                assert forall|i: int|
                    0 <= i < MAX_TASKS && i != task_id && i != n implies #[trigger] sf.tasks@[i]
                    == s0.tasks@[i] by {
                    assert(sf.tasks@[i] == crate::sched::sched_task_after(sl, i));
                }
                assert forall|p: int| 0 <= p < 3 implies #[trigger] sf.q(p) == (if p
                    == s0.priority_sched.top_priority() {
                    s0.q(p).drop_first()
                } else {
                    s0.q(p)
                }) by {
                    assert(sf.q(p) == crate::sched::after_select_q(sl, p));
                }
            }
            match sw {
                Some(pair) => (0, SyscallEffect::Switch(pair.0, pair.1)),
                None => {
                    proof {
                        assert(false);
                    }
                    (0, SyscallEffect::NoAction)
                },
            }
        },
    }
}

/// Route a system call by id, counting it first: `write` validates and
/// returns the byte count for the stub to log, `exit` tells the stub to halt
/// the caller, `sleep` suspends the caller, the IPC calls report not
/// implemented, and an unknown id returns -1 uncounted.
#[verifier::rlimit(50)]
pub fn syscall_dispatcher(
    state: &mut SchedState,
    metrics: &mut KernelMetrics,
    syscall_id: usize,
    arg1: usize,
    arg2: usize,
    arg3: usize,
) -> (r: (isize, SyscallEffect))
    requires
        old(state).wf(),
        match old(state).current {
            Some(c) => c != 0 && old(state).state_of(c as int) is Running,
            None => true,
        },
        syscall_id < 5 ==> old(metrics).syscall_count@[syscall_id as int] < usize::MAX,
        syscall_id == SYS_WRITE ==> arg3 <= isize::MAX as usize,
        syscall_id == SYS_SLEEP ==> old(state).tick_count() + arg1 as u64 <= u64::MAX && old(
            metrics,
        ).sleep_count < usize::MAX,
    ensures
        final(state).wf(),
        syscall_id < 5 ==> final(metrics).syscall_count@ == old(metrics).syscall_count@.update(
            syscall_id as int,
            (old(metrics).syscall_count@[syscall_id as int] + 1) as usize,
        ),
        syscall_id >= 5 ==> *final(metrics) == *old(metrics) && r == (
            -1isize,
            SyscallEffect::NoAction,
        ) && sched_unchanged(*old(state), *final(state)),
        syscall_id != SYS_SLEEP ==> same_but_syscalls(*old(metrics), *final(metrics)),
        syscall_id == SYS_WRITE ==> sched_unchanged(*old(state), *final(state)) && r.1
            == SyscallEffect::NoAction && {
            &&& arg1 != 0 ==> r.0 == -1
            &&& arg1 == 0 && (arg2 == 0 || arg3 == 0) ==> r.0 == 0
            &&& arg1 == 0 && arg2 != 0 && arg3 > 0 ==> r.0 == arg3 as isize
        },
        syscall_id == SYS_EXIT ==> sched_unchanged(*old(state), *final(state)) && r == (
            0isize,
            SyscallEffect::HaltTask,
        ),
        syscall_id == SYS_IPC_SEND || syscall_id == SYS_IPC_RECV ==> sched_unchanged(
            *old(state),
            *final(state),
        ) && r == (-1isize, SyscallEffect::NoAction),
        syscall_id == SYS_SLEEP ==> {
            let s0 = *old(state);
            &&& arg1 == 0 ==> r == (0isize, SyscallEffect::NoAction) && sched_unchanged(
                s0,
                *final(state),
            ) && final(metrics).sleep_count == old(metrics).sleep_count
            &&& arg1 > 0 && s0.current is None ==> r == (-1isize, SyscallEffect::NoAction)
                && sched_unchanged(s0, *final(state)) && final(metrics).sleep_count == old(
                metrics,
            ).sleep_count
            &&& arg1 > 0 && s0.current is Some && (forall|j: int|
                0 <= j < MAX_TASKS ==> (#[trigger] s0.sleepers()[j]).valid) ==> r == (
            -1isize,
            SyscallEffect::NoAction,
            ) && sched_unchanged(s0, *final(state)) && final(metrics).sleep_count == old(
                metrics,
            ).sleep_count
            &&& arg1 > 0 && s0.current is Some && (exists|j: int|
                0 <= j < MAX_TASKS && !(#[trigger] s0.sleepers()[j]).valid) ==> {
                let c = s0.current.unwrap();
                let n = sleep_handoff(s0);
                &&& r == (0isize, SyscallEffect::Switch(Some(c), n))
                &&& final(metrics).sleep_count == old(metrics).sleep_count + 1
                &&& exists|j: int|
                    {
                        &&& 0 <= j < MAX_TASKS
                        &&& !(#[trigger] s0.sleepers()[j]).valid
                        &&& final(state).sleepers() == s0.sleepers().update(
                            j,
                            SleepingTask {
                                task_id: c,
                                wake_tick: (s0.tick_count() + arg1 as u64) as u64,
                                priority: s0.prio_of(c as int),
                                valid: true,
                            },
                        )
                    }
                &&& final(state).current == Some(n)
                &&& final(state).tasks@[c as int] == Some(
                    with_state(s0.tasks@[c as int].unwrap(), TaskState::Sleeping),
                )
            }
        },
{
    metrics.increment_syscall(syscall_id);
    if syscall_id == SYS_WRITE {
        (sys_write(arg1, arg2, arg3), SyscallEffect::NoAction)
    } else if syscall_id == SYS_EXIT {
        (0, SyscallEffect::HaltTask)
    } else if syscall_id == SYS_SLEEP {
        sys_sleep(state, metrics, arg1)
    } else if syscall_id == SYS_IPC_SEND {
        (sys_ipc_send(arg1, arg2, arg3), SyscallEffect::NoAction)
    } else if syscall_id == SYS_IPC_RECV {
        (sys_ipc_recv(arg1, arg2, arg3), SyscallEffect::NoAction)
    } else {
        (-1, SyscallEffect::NoAction)
    }
}

} // verus!
