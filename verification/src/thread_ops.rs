//! `Thread` invocations: `Retire` `4` tears down a thread other than the
//! running one.
//!
//! Retirement needs the `RETIRE` right and all-zero arguments. It cancels
//! every pending record naming the thread and purges its queued wakeup,
//! then frees its pool slot, so later uses of its capabilities fail
//! validation. Its address space and capability table are untouched.
//! Other thread operations are not supported.

use vstd::prelude::*;
use crate::error::CapError;
use crate::invoke::lookup_entry;
use crate::key::RawKey;
use crate::key_table::CallerTable;
use crate::nucleus::{pending_cancelled, Nucleus};
use crate::object_pool::{SlotMeta, SlotState};
use crate::object_type::ObjectType;
use crate::rights::{bits_contain, Rights};
use crate::sync_ops::{entry_id, lookup_typed, typed_entry};

verus! {

/// What a `Thread` invocation does (see the module documentation).
pub open spec fn thread_done(a: &Nucleus, b: &Nucleus, caller: CallerTable, key: RawKey, op: u64,
    args: Seq<u64>, r: Result<(u64, u64), CapError>) -> bool {
    if op != 4 || args[0] != 0 || args[1] != 0 || args[2] != 0 || args[3] != 0 || args[4] != 0 || args[5] != 0 {
        r == Err::<(u64, u64), CapError>(CapError::InvalidOperation) && *b == *a
    } else {
        match typed_entry(a, caller, key, ObjectType::THREAD) {
            Err(e) => r == Err::<(u64, u64), CapError>(e) && *b == *a,
            Ok(e) => {
                let id = entry_id(e);
                if !bits_contain(e.rights.0, Rights::RETIRE) {
                    r == Err::<(u64, u64), CapError>(CapError::InsufficientRights) && *b == *a
                } else if a.current_thread is None {
                    r == Err::<(u64, u64), CapError>(CapError::InvalidDomain) && *b == *a
                } else if id.index as u32 == a.current_thread->Some_0 {
                    r == Err::<(u64, u64), CapError>(CapError::InvalidOperation) && *b == *a
                } else if a.pools.threads.live(id) is None {
                    r == Err::<(u64, u64), CapError>(CapError::InvalidOperation) && *b == *a
                } else {
                    &&& r == Ok::<(u64, u64), CapError>((0, 0))
                    &&& pending_cancelled(a, b, id)
                    &&& a.pools.threads.evolves_to(&b.pools.threads)
                    &&& b.pools.threads.meta() == a.pools.threads.meta().update(id.index as int,
                        SlotMeta { state: SlotState::Free, generation: id.generation })
                    &&& b.pools.threads.objects() == a.pools.threads.objects().update(id.index as int, None)
                }
            },
        }
    }
}

/// Handle a `Thread` invocation (see [`thread_done`]).
pub fn thread_invoke(nucleus: &mut Nucleus, caller: CallerTable, key: RawKey, op: u64, args: &[u64; 6])
    -> (r: Result<(u64, u64), CapError>)
    requires
        old(nucleus).wf(),
    ensures
        final(nucleus).wf(),
        thread_done(old(nucleus), final(nucleus), caller, key, op, args@, r),
{
    if op != 4 {
        return Err(CapError::InvalidOperation);
    }
    if args[0] != 0 || args[1] != 0 || args[2] != 0 || args[3] != 0 || args[4] != 0 || args[5] != 0 {
        return Err(CapError::InvalidOperation);
    }
    let entry = lookup_typed(nucleus, caller, key, ObjectType::THREAD)?;
    if !entry.rights().has(Rights::RETIRE) {
        return Err(CapError::InsufficientRights);
    }
    let thread_id = match entry.object_id() {
        Ok(id) => id,
        Err(e) => {
            return Err(e.with_key_operand(0));
        },
    };
    let current = match nucleus.current_thread {
        Some(c) => c,
        None => {
            return Err(CapError::InvalidDomain);
        },
    };
    if thread_id.index as u32 == current {
        return Err(CapError::InvalidOperation);
    }
    nucleus.cancel_thread_pending(thread_id)?;
    match nucleus.pools.threads.deallocate(thread_id) {
        Ok(()) => Ok((0, 0)),
        Err(e) => Err(e.with_key_operand(0)),
    }
}

} // verus!
