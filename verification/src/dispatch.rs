//! Capability invocation dispatch: the running thread's table context, the
//! invoked capability's kind, and the handler for that kind.
//!
//! Core kinds: `Null` is refused as a null capability; `Untyped`,
//! `Thread`, `KeyTable`, `Notification` and `EventCount` have handlers;
//! every other core kind is unsupported. Architecture kinds: `Frame`,
//! `PageTable`, `AddressSpace` and `ASIDPool` have handlers; every other
//! architecture kind is unsupported.

use vstd::prelude::*;
use crate::arch_ops::{address_space_done, address_space_invoke, asid_pool_invoke, assign_done, frame_done,
    frame_invoke, page_table_done, page_table_invoke};
use crate::error::CapError;
use crate::invoke::{cap_entry, caller_table, lookup_entry, spec_caller_table, InvokeOutcome};
use crate::key::RawKey;
use crate::key_table::CallerTable;
use crate::nucleus::Nucleus;
use crate::object_type::{arch_type_of_index, core_type_of_index, ArchType, CoreType, ObjectType};
use crate::retype::{untyped_done, untyped_invoke};
use crate::sched::Scheduler;
use crate::sync_ops::{
    event_count_done, event_count_invoke, event_count_wake_count, event_count_wakes, notification_done,
    notification_invoke, notification_wake_count, notification_wakes,
};
use crate::table_ops::{table_op_done, views};
use crate::thread_ops::{thread_done, thread_invoke};
use crate::waiter_queues::{lemma_invoke_keeps_queues, queues_waiting};

verus! {

/// The result words of an invocation that always completes.
pub open spec fn words(r: Result<InvokeOutcome, CapError>) -> Result<(u64, u64), CapError> {
    match r {
        Ok(InvokeOutcome::Complete(v)) => Ok(v),
        Ok(InvokeOutcome::Blocked(_)) => Err(CapError::InvalidOperation),
        Err(e) => Err(e),
    }
}

/// Whether an invocation outcome is not a block.
pub open spec fn completes(r: Result<InvokeOutcome, CapError>) -> bool {
    !(r matches Ok(InvokeOutcome::Blocked(_)))
}

/// Only the carved tables differ between `a` and `b`.
pub open spec fn only_tables_changed(a: &Nucleus, b: &Nucleus) -> bool {
    &&& b.pools == a.pools
    &&& b.phys == a.phys
    &&& b.current_thread == a.current_thread
    &&& b.dcb_pages == a.dcb_pages
    &&& b.pending == a.pending
    &&& b.scheduler == a.scheduler
    &&& b.hw == a.hw
}

/// What invoking a core-kind capability of type `ot` returns and does.
pub open spec fn core_done(a: &Nucleus, b: &Nucleus, caller: CallerTable, key: RawKey, ot: ObjectType, op: u64,
    args: Seq<u64>, r: Result<InvokeOutcome, CapError>) -> bool {
    match core_type_of_index(ot.spec_index()) {
        None => r == Err::<InvokeOutcome, CapError>(CapError::UnknownCoreType(ot.spec_index())) && *b == *a,
        Some(CoreType::Null) => r == Err::<InvokeOutcome, CapError>(CapError::NullCapability) && *b == *a,
        Some(CoreType::Untyped) => completes(r) && untyped_done(a, b, caller, key, op, args, words(r)),
        Some(CoreType::Thread) => completes(r) && thread_done(a, b, caller, key, op, args, words(r)),
        Some(CoreType::KeyTable) => {
            &&& completes(r)
            &&& table_op_done(views(a.tables@), views(b.tables@), caller, key, op, args, words(r))
            &&& only_tables_changed(a, b)
        },
        Some(CoreType::Notification) => notification_done(a, b, caller, key, op, args, r),
        Some(CoreType::EventCount) => event_count_done(a, b, caller, key, op, args, r),
        Some(c) => r == Err::<InvokeOutcome, CapError>(CapError::UnsupportedCoreType(c)) && *b == *a,
    }
}

/// What invoking an architecture-kind capability of type `ot` returns and
/// does.
pub open spec fn arch_done(a: &Nucleus, b: &Nucleus, caller: CallerTable, key: RawKey, ot: ObjectType, op: u64,
    args: Seq<u64>, r: Result<(u64, u64), CapError>) -> bool {
    match arch_type_of_index(ot.spec_index()) {
        None => r == Err::<(u64, u64), CapError>(CapError::UnknownArchType(ot.spec_index())) && *b == *a,
        Some(ArchType::Frame) => frame_done(a, b, caller, key, op, args, r),
        Some(ArchType::PageTable) => page_table_done(a, b, caller, key, op, args, r),
        Some(ArchType::AddressSpace) => address_space_done(a, b, caller, key, op, args, r),
        Some(ArchType::ASIDPool) => assign_done(a, b, caller, key, op, args, r),
        Some(x) => r == Err::<(u64, u64), CapError>(CapError::UnsupportedArchType(x)) && *b == *a,
    }
}

/// What a capability invocation by the running thread returns and does:
/// the caller's table context and the invoked capability are resolved
/// first, then the handler of the capability's kind runs.
pub open spec fn invoke_done(a: &Nucleus, b: &Nucleus, key: RawKey, op: u64, args: Seq<u64>,
    r: Result<InvokeOutcome, CapError>) -> bool {
    match spec_caller_table(a) {
        Err(e) => r == Err::<InvokeOutcome, CapError>(e) && *b == *a,
        Ok(caller) => match cap_entry(views(a.tables@), caller, key, 0) {
            Err(e) => r == Err::<InvokeOutcome, CapError>(e) && *b == *a,
            Ok(entry) => if entry.obj_type.spec_is_arch() {
                completes(r) && arch_done(a, b, caller, key, entry.obj_type, op, args, words(r))
            } else {
                core_done(a, b, caller, key, entry.obj_type, op, args, r)
            },
        },
    }
}

/// How many threads invoking a core-kind capability of type `ot` makes
/// runnable: only `Signal` and `Advance` wake threads.
pub open spec fn core_wakes(a: &Nucleus, caller: CallerTable, key: RawKey, ot: ObjectType, op: u64,
    args: Seq<u64>) -> nat {
    match core_type_of_index(ot.spec_index()) {
        Some(CoreType::Notification) => notification_wakes(a, caller, key, op, args),
        Some(CoreType::EventCount) => event_count_wakes(a, caller, key, op, args),
        _ => 0,
    }
}

/// How many threads a capability invocation by the running thread makes
/// runnable.
pub open spec fn invoke_wakes(a: &Nucleus, key: RawKey, op: u64, args: Seq<u64>) -> nat {
    match spec_caller_table(a) {
        Err(_) => 0,
        Ok(caller) => match cap_entry(views(a.tables@), caller, key, 0) {
            Err(_) => 0,
            Ok(entry) => if entry.obj_type.spec_is_arch() {
                0
            } else {
                core_wakes(a, caller, key, entry.obj_type, op, args)
            },
        },
    }
}

/// How many threads a capability invocation by the running thread would
/// make runnable (see [`invoke_wakes`]).
pub fn invoke_wake_count(nucleus: &Nucleus, key: RawKey, op: u64, args: &[u64; 6]) -> (r: usize)
    requires
        nucleus.wf(),
    ensures
        r == invoke_wakes(nucleus, key, op, args@),
{
    let caller = match caller_table(nucleus) {
        Ok(c) => c,
        Err(_) => {
            return 0;
        },
    };
    let entry = match lookup_entry(&nucleus.tables, caller, key, 0) {
        Ok(e) => e,
        Err(_) => {
            return 0;
        },
    };
    let ot = entry.object_type();
    if ot.is_arch() {
        return 0;
    }
    match CoreType::try_from(ot) {
        Ok(CoreType::Notification) => notification_wake_count(nucleus, caller, key, op, args),
        Ok(CoreType::EventCount) => event_count_wake_count(nucleus, caller, key, op, args),
        _ => 0,
    }
}

/// Whether the runnable queue has room for every thread an invocation by
/// the running thread would wake: what [`handle_cap_invoke`] needs.
pub fn wakes_fit(nucleus: &Nucleus, key: RawKey, op: u64, args: &[u64; 6]) -> (r: bool)
    requires
        nucleus.wf(),
    ensures
        r == (nucleus.scheduler@.len() + invoke_wakes(nucleus, key, op, args@) <= Scheduler::CAPACITY),
{
    let wakes = invoke_wake_count(nucleus, key, op, args);
    let queued = nucleus.scheduler.len();
    wakes <= Scheduler::CAPACITY && queued <= Scheduler::CAPACITY - wakes
}

/// Dispatch an invocation of a core-kind capability (see [`core_done`]).
/// The runnable queue must have room for every thread it wakes.
pub fn core_invoke(nucleus: &mut Nucleus, caller: CallerTable, key: RawKey, ot: ObjectType, op: u64,
    args: &[u64; 6]) -> (r: Result<InvokeOutcome, CapError>)
    requires
        old(nucleus).wf(),
        !ot.spec_is_arch(),
        old(nucleus).scheduler@.len() + core_wakes(old(nucleus), caller, key, ot, op, args@) <= Scheduler::CAPACITY,
    ensures
        final(nucleus).wf(),
        core_done(old(nucleus), final(nucleus), caller, key, ot, op, args@, r),
{
    let core_type = CoreType::try_from(ot)?;
    match core_type {
        CoreType::Null => Err(CapError::NullCapability),
        CoreType::Untyped => match untyped_invoke(nucleus, caller, key, op, args) {
            Ok(v) => Ok(InvokeOutcome::Complete(v)),
            Err(e) => Err(e),
        },
        CoreType::Thread => match thread_invoke(nucleus, caller, key, op, args) {
            Ok(v) => Ok(InvokeOutcome::Complete(v)),
            Err(e) => Err(e),
        },
        CoreType::KeyTable => match crate::table_ops::invoke(&mut nucleus.tables, caller, key, op, args) {
            Ok(v) => Ok(InvokeOutcome::Complete(v)),
            Err(e) => Err(e),
        },
        CoreType::Notification => notification_invoke(nucleus, caller, key, op, args),
        CoreType::EventCount => event_count_invoke(nucleus, caller, key, op, args),
        _ => Err(CapError::UnsupportedCoreType(core_type)),
    }
}

/// Dispatch an invocation of an architecture-kind capability (see
/// [`arch_done`]).
pub fn arch_invoke(nucleus: &mut Nucleus, caller: CallerTable, key: RawKey, ot: ObjectType, op: u64,
    args: &[u64; 6]) -> (r: Result<(u64, u64), CapError>)
    requires
        old(nucleus).wf(),
        ot.spec_is_arch(),
    ensures
        final(nucleus).wf(),
        arch_done(old(nucleus), final(nucleus), caller, key, ot, op, args@, r),
{
    let arch_type = ArchType::try_from(ot)?;
    match arch_type {
        ArchType::Frame => frame_invoke(nucleus, caller, key, op, args),
        ArchType::PageTable => page_table_invoke(nucleus, caller, key, op, args),
        ArchType::AddressSpace => address_space_invoke(nucleus, caller, key, op, args),
        ArchType::ASIDPool => asid_pool_invoke(nucleus, caller, key, op, args),
        x => Err(CapError::UnsupportedArchType(x)),
    }
}

/// Handle a capability invocation by the running thread (see
/// [`invoke_done`]). The runnable queue must have room for every thread it
/// wakes (see [`wakes_fit`]).
pub fn handle_cap_invoke(nucleus: &mut Nucleus, key: RawKey, op: u64, args: &[u64; 6])
    -> (r: Result<InvokeOutcome, CapError>)
    requires
        old(nucleus).wf(),
        old(nucleus).scheduler@.len() + invoke_wakes(old(nucleus), key, op, args@) <= Scheduler::CAPACITY,
    ensures
        final(nucleus).wf(),
        invoke_done(old(nucleus), final(nucleus), key, op, args@, r),
        queues_waiting(old(nucleus)) ==> queues_waiting(final(nucleus)),
{
    let caller = caller_table(nucleus)?;
    let entry = lookup_entry(&nucleus.tables, caller, key, 0)?;
    let ot = entry.object_type();
    let r = if ot.is_arch() {
        match arch_invoke(nucleus, caller, key, ot, op, args) {
            Ok(v) => Ok(InvokeOutcome::Complete(v)),
            Err(e) => Err(e),
        }
    } else {
        core_invoke(nucleus, caller, key, ot, op, args)
    };
    proof {
        if queues_waiting(old(nucleus)) {
            lemma_invoke_keeps_queues(old(nucleus), nucleus, key, op, args@, r);
        }
    }
    r
}

} // verus!
