//! Threads: the schedulable execution entities.
//!
//! A Thread references its capability table (a carved `KeyTable`, by kernel
//! address) and its `AddressSpace` (by checked pool identity), plus the
//! kernel-private execution state needed to stop and resume it.

use vstd::prelude::*;
use crate::access::ObjectId;
use crate::nucleus_object::NucleusObject;

verus! {

/// Kernel-private execution context of a Thread.
///
/// The saved register state itself lives in the exception frame on the
/// thread's kernel stack; this records only where to find it.
#[derive(Clone, Copy, Debug, PartialEq, Eq, Structural)]
pub enum ExecutionContext {
    /// The thread has never run: start it at `pc` with a full-descending
    /// kernel stack whose top is `stack_top`.
    NotStarted { pc: u64, stack_top: u64 },
    /// Blocked: the saved exception frame lives at `frame_addr` on the
    /// thread's kernel stack, and the invocation is parked on the pending
    /// record `record`.
    Parked { frame_addr: u64, record: ObjectId },
    /// Currently executing, or a thread with no execution context to
    /// restore.
    Running,
}

/// The schedulable execution entity.
#[derive(Clone, Copy, Debug, PartialEq, Eq, Structural)]
pub struct Thread {
    /// Kernel address of this thread's capability table (a carved
    /// `KeyTable`).
    pub keytable_addr: u64,
    /// The checked identity of this thread's `AddressSpace`.
    pub address_space: ObjectId,
    /// Execution context for stopping and resuming this thread.
    pub context: ExecutionContext,
}

impl NucleusObject for Thread {
    open spec fn inv(&self) -> bool {
        true
    }
}

} // verus!
