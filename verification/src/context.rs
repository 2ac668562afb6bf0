//! Saved CPU state for a task.
//!
//! `CpuContext` holds the callee-saved register set of the x86-64 System V
//! ABI plus the stack pointer. The layout is a data contract with the
//! architecture-specific context-switch routine: the fields appear in the
//! order in which that routine pushes and pops them.

use vstd::prelude::*;

verus! {

/// Callee-saved register set of a suspended task, plus its stack pointer.
///
/// A context switch stores the outgoing task's registers into its `CpuContext`
/// slot and loads the incoming task's registers from its slot; resuming a task
/// continues right after its own switch with these register values.
#[derive(Debug, Clone, Copy, PartialEq, Eq, Structural)]
pub struct CpuContext {
    pub r15: u64,
    pub r14: u64,
    pub r13: u64,
    pub r12: u64,
    pub rbp: u64,
    pub rbx: u64,
    /// Stack pointer; for a runnable task it addresses the word that the
    /// context-switch routine pops as its return address.
    pub rsp: u64,
}

impl CpuContext {
    /// A context with every register zeroed.
    pub fn new() -> (c: CpuContext)
        ensures
            c.r15 == 0,
            c.r14 == 0,
            c.r13 == 0,
            c.r12 == 0,
            c.rbp == 0,
            c.rbx == 0,
            c.rsp == 0,
    {
        CpuContext { r15: 0, r14: 0, r13: 0, r12: 0, rbp: 0, rbx: 0, rsp: 0 }
    }
}

} // verus!
