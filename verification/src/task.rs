//! Task control blocks.
//!
//! A `Task` is a schedulable unit: an identity, a diagnostic name, a
//! scheduling state and priority, the bounds of its dedicated kernel stack,
//! its entry point, and the saved CPU context that a context switch restores.

use vstd::prelude::*;
use crate::context::CpuContext;
use crate::priority::TaskPriority;

verus! {

/// Small non-negative task identifier, unique for the kernel's lifetime.
/// Id 0 is reserved for the idle task; spawned tasks get 1, 2, ... in order.
pub type TaskId = usize;

/// Maximum number of live tasks, a compile-time bound.
pub const MAX_TASKS: usize = 64;

/// Scheduling state of a task.
#[derive(Debug, Clone, Copy, PartialEq, Eq, Structural)]
pub enum TaskState {
    Ready,
    Running,
    Sleeping,
    Terminated,
}

/// Why a spawn request was refused.
#[derive(Debug, Clone, Copy, PartialEq, Eq, Structural)]
pub enum SpawnError {
    /// The task-id space (`MAX_TASKS`) is exhausted.
    TooManyTasks,
    /// The stack or control-block allocation failed (a null address).
    OutOfMemory,
}

/// Task control block. Owned by the scheduler's task table; the table slot
/// index equals `id`.
#[derive(Debug, Clone, Copy)]
pub struct Task {
    pub id: TaskId,
    /// Short immutable name for diagnostics.
    pub name: &'static str,
    pub state: TaskState,
    pub priority: TaskPriority,
    /// Address of the task's entry function; it takes no arguments and never
    /// returns. Only the bootstrap trampoline outside this library calls it.
    pub entry: u64,
    /// Base address of the task's dedicated, aligned kernel stack.
    pub stack_base: u64,
    /// Size of that stack in bytes.
    pub stack_size: u64,
    /// Saved callee-preserved registers and stack pointer.
    pub context: CpuContext,
}

impl Task {
    /// The initial saved stack pointer for a fresh task: the topmost word of
    /// its stack, where the bootstrap trampoline's address is placed so that
    /// the first context switch into the task "returns" into the trampoline.
    pub open spec fn initial_rsp(stack_base: u64, stack_size: u64) -> int {
        stack_base + stack_size - 8
    }

    /// Build a task control block in the `Ready` state with a prepared first
    /// context: the saved stack pointer addresses the topmost stack word
    /// (where the caller must store the trampoline's address), the `r12` slot
    /// is seeded with the entry address for the trampoline to fetch, and the
    /// remaining callee-saved registers are zeroed.
    pub fn new(
        id: TaskId,
        name: &'static str,
        entry: u64,
        priority: TaskPriority,
        stack_base: u64,
        stack_size: u64,
    ) -> (t: Task)
        requires
            stack_size >= 16,
            stack_base + stack_size <= u64::MAX,
        ensures
            t.id == id,
            t.name == name,
            t.state == TaskState::Ready,
            t.priority == priority,
            t.entry == entry,
            t.stack_base == stack_base,
            t.stack_size == stack_size,
            t.context.rsp == Self::initial_rsp(stack_base, stack_size),
            t.context.r12 == entry,
            t.context.r15 == 0 && t.context.r14 == 0 && t.context.r13 == 0,
            t.context.rbp == 0 && t.context.rbx == 0,
    {
        let mut context = CpuContext::new();
        context.rsp = stack_base + stack_size - 8;
        context.r12 = entry;
        Task { id, name, state: TaskState::Ready, priority, entry, stack_base, stack_size, context }
    }
}

} // verus!
