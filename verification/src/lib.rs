//! Core of a preemptive, priority-based kernel task scheduler: task control
//! blocks with saved CPU contexts, three FIFO ready queues with a non-empty
//! bitmap, a fixed-capacity sleep table, a tick-driven scheduling loop, a
//! preemption counter, a system-call dispatcher and observability counters.
//!
//! The library is the decision-making part of the kernel. Everything that
//! touches hardware — the context-switch leaf routine, the timer and
//! software-interrupt vectors, the serial port, the boot handshake and the
//! global spinlocked instance of the scheduler state — lives outside it and
//! hands plain values (task ids, addresses, tick counts) in and out.

pub mod context;
pub mod counting;
pub mod ipc;
pub mod laws;
pub mod metrics;
pub mod priority;
pub mod sched;
pub mod syscall;
pub mod task;
pub mod timer;

pub use context::CpuContext;
pub use priority::PriorityScheduler;
pub use priority::TaskPriority;
pub use task::Task;
pub use task::TaskId;
pub use task::TaskState;
