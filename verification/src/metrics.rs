//! Kernel observability counters.
//!
//! All counters only grow. The kernel keeps one instance next to the
//! scheduler state; interrupt- and task-context code update it while holding
//! the same lock that guards the scheduler.

use vstd::prelude::*;

verus! {

/// Monotonically increasing counters for scheduler and syscall activity.
#[derive(Debug, Clone, Copy)]
pub struct KernelMetrics {
    pub ctx_switches: usize,
    pub preemptions: usize,
    /// One slot per known syscall id, `SYS_WRITE` through `SYS_IPC_RECV`.
    pub syscall_count: [usize; 5],
    pub ipc_sends: usize,
    pub ipc_recvs: usize,
    pub ipc_queue_full: usize,
    pub sleep_count: usize,
    pub wake_count: usize,
    pub timer_ticks: usize,
}

/// The two metrics structures agree on everything but the per-syscall slots.
pub open spec fn same_but_syscalls(a: KernelMetrics, b: KernelMetrics) -> bool {
    &&& b.ctx_switches == a.ctx_switches
    &&& b.preemptions == a.preemptions
    &&& b.ipc_sends == a.ipc_sends
    &&& b.ipc_recvs == a.ipc_recvs
    &&& b.ipc_queue_full == a.ipc_queue_full
    &&& b.sleep_count == a.sleep_count
    &&& b.wake_count == a.wake_count
    &&& b.timer_ticks == a.timer_ticks
}

impl KernelMetrics {
    /// All counters zero.
    pub fn new() -> (m: KernelMetrics)
        ensures
            m.ctx_switches == 0,
            m.preemptions == 0,
            forall|i: int| 0 <= i < 5 ==> m.syscall_count@[i] == 0,
            m.ipc_sends == 0,
            m.ipc_recvs == 0,
            m.ipc_queue_full == 0,
            m.sleep_count == 0,
            m.wake_count == 0,
            m.timer_ticks == 0,
    {
        KernelMetrics {
            ctx_switches: 0,
            preemptions: 0,
            syscall_count: [0, 0, 0, 0, 0],
            ipc_sends: 0,
            ipc_recvs: 0,
            ipc_queue_full: 0,
            sleep_count: 0,
            wake_count: 0,
            timer_ticks: 0,
        }
    }

    /// Count one invocation of `syscall_id`; ids outside the known range are
    /// not counted.
    pub fn increment_syscall(&mut self, syscall_id: usize)
        requires
            syscall_id < 5 ==> old(self).syscall_count@[syscall_id as int] < usize::MAX,
        ensures
            syscall_id < 5 ==> final(self).syscall_count@ == old(self).syscall_count@.update(
                syscall_id as int,
                (old(self).syscall_count@[syscall_id as int] + 1) as usize,
            ),
            syscall_id >= 5 ==> final(self).syscall_count == old(self).syscall_count,
            same_but_syscalls(*old(self), *final(self)),
    {
        if syscall_id < 5 {
            let v = self.syscall_count[syscall_id];
            self.syscall_count[syscall_id] = v + 1;
        }
    }
}

} // verus!
