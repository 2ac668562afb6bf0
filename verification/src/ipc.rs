//! Inter-process communication subsystem: the error surface.
//!
//! Ports and message delivery are a later phase; the error kinds and the
//! syscall ids already exist so that the trap layer's wire contract is
//! stable. The corresponding syscalls report `NotImplemented` as a negative
//! return value.

use vstd::prelude::*;

verus! {

/// IPC error kinds.
#[derive(Debug, Clone, Copy, PartialEq, Eq, Structural)]
pub enum IpcError {
    InvalidPort,
    QueueFull,
    InvalidBuffer,
    PortNotFound,
    MessageTooLarge,
    NotImplemented,
}

} // verus!
