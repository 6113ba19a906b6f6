//! Capability invocation: the caller's table context, capability lookup
//! through it, and the wakeup and waiter bookkeeping the blocking
//! operations share.

use vstd::prelude::*;
use crate::access::{ObjectId, PoolTag};
use crate::completion::{PendingPool, PendingState};
use crate::error::{spec_with_key_operand, CapError};
use crate::key::RawKey;
use crate::key_entry::KeyEntry;
use crate::key_table::{key_check_in, CallerTable, KeyTable, KeyTableView};
use crate::nucleus::Nucleus;
use crate::object_pool::SlotState;
use crate::object_type::ObjectType;
use crate::sched::Scheduler;
use crate::store::AddrStore;
use crate::table_ops::{tables_wf, views};

verus! {

/// The outcome of one capability invocation.
#[derive(Clone, Copy, Debug, PartialEq, Eq)]
pub enum InvokeOutcome {
    /// The invocation completed now; these are its two result words.
    Complete((u64, u64)),
    /// The invocation blocked on the named pending record: the caller
    /// returns when the record reaches its terminal transition.
    Blocked(ObjectId),
}

/// The capability `key` names in the caller's table (key errors report
/// `operand`); a caller table that was never carved is an invalid
/// operation.
pub open spec fn cap_entry(tv: Map<u64, KeyTableView>, caller: CallerTable, key: RawKey, operand: u8)
    -> Result<KeyEntry, CapError> {
    if !tv.contains_key(caller.addr) {
        Err(CapError::InvalidOperation)
    } else {
        match key_check_in(tv[caller.addr], key, caller.guard) {
            Err(e) => Err(spec_with_key_operand(e, operand)),
            Ok(i) => Ok(tv[caller.addr].entries[i]),
        }
    }
}

/// Look up the capability `key` names in the caller's table (see
/// [`cap_entry`]).
pub fn lookup_entry(tables: &AddrStore<KeyTable>, caller: CallerTable, key: RawKey, operand: u8)
    -> (r: Result<KeyEntry, CapError>)
    requires
        tables_wf(tables),
    ensures
        r == cap_entry(views(tables@), caller, key, operand),
        r matches Ok(e) ==> e.wf(),
{
    match tables.get(caller.addr) {
        None => Err(CapError::InvalidOperation),
        Some(table) => match table.lookup(key, caller.guard) {
            Ok(e) => Ok(*e),
            Err(e) => Err(e.with_key_operand(operand)),
        },
    }
}

/// The running thread's table context: its table must exist and hold, at
/// the self-table slot, a capability naming that very table, whose guard
/// the caller's keys carry.
pub open spec fn spec_caller_table(n: &Nucleus) -> Result<CallerTable, CapError> {
    match n.current() {
        None => Err(CapError::InvalidDomain),
        Some(t) => if !n.tables@.contains_key(t.keytable_addr) {
            Err(CapError::InvalidDomain)
        } else {
            let v = n.tables@[t.keytable_addr]@;
            let e = v.entries[crate::key::KeySlot::SELF_KEYTABLE as int];
            if e.obj_type.0 != ObjectType::KEY_TABLE || e.table().address != t.keytable_addr {
                Err(CapError::InvalidDomain)
            } else {
                Ok(CallerTable { addr: t.keytable_addr, guard: e.table().guard })
            }
        },
    }
}

/// Resolve the running thread's table context (see [`spec_caller_table`]).
pub fn caller_table(nucleus: &Nucleus) -> (r: Result<CallerTable, CapError>)
    requires
        nucleus.wf(),
    ensures
        r == spec_caller_table(nucleus),
{
    let addr = match nucleus.current_thread_table_addr() {
        Some(a) => a,
        None => {
            return Err(CapError::InvalidDomain);
        },
    };
    let table = match nucleus.tables.get(addr) {
        Some(t) => t,
        None => {
            return Err(CapError::InvalidDomain);
        },
    };
    match table.self_table_capability() {
        Some((self_addr, guard, _size_bits)) => {
            if self_addr != addr {
                return Err(CapError::InvalidDomain);
            }
            Ok(CallerTable { addr, guard })
        },
        None => Err(CapError::InvalidDomain),
    }
}

/// The running thread's checked identity, for wait registration.
pub open spec fn spec_current_waiter(n: &Nucleus) -> Result<ObjectId, CapError> {
    match n.current_thread {
        None => Err(CapError::InvalidDomain),
        Some(index) => if (index as int) < n.pools.threads.capacity()
            && n.pools.threads.meta()[index as int].state == SlotState::Live {
            Ok(ObjectId {
                pool: PoolTag::Thread,
                index: index as u16,
                generation: n.pools.threads.meta()[index as int].generation,
            })
        } else {
            Err(CapError::InvalidDomain)
        },
    }
}

/// The running thread's checked identity, its generation read from the
/// thread pool's metadata (see [`spec_current_waiter`]).
pub fn current_waiter(nucleus: &Nucleus) -> (r: Result<ObjectId, CapError>)
    requires
        nucleus.wf(),
    ensures
        r == spec_current_waiter(nucleus),
        r matches Ok(id) ==> nucleus.pools.threads.live(id) is Some,
{
    let index = match nucleus.current_thread {
        Some(i) => i,
        None => {
            return Err(CapError::InvalidDomain);
        },
    };
    let generation = match nucleus.pools.threads.generation_of(index as usize) {
        Some(g) => g,
        None => {
            return Err(CapError::InvalidDomain);
        },
    };
    if index > u16::MAX as u32 {
        return Err(CapError::InvalidDomain);
    }
    Ok(ObjectId { pool: PoolTag::Thread, index: index as u16, generation })
}

/// Everything of the nucleus but its pending records and runnable queue
/// is unchanged.
pub open spec fn only_wakeup_state_changed(a: &Nucleus, b: &Nucleus) -> bool {
    &&& b.pools == a.pools
    &&& b.tables == a.tables
    &&& b.phys == a.phys
    &&& b.dcb_pages == a.dcb_pages
    &&& b.current_thread == a.current_thread
    &&& b.hw == a.hw
}

/// What waking the waiter of a completed record does: a live waiter's
/// index joins the back of the runnable queue; a record whose waiter is
/// gone is released instead, since nobody will resume to collect it.
pub open spec fn woken(a: &Nucleus, b: &Nucleus, record: ObjectId) -> bool {
    let inv = a.pending.live(record).unwrap();
    &&& only_wakeup_state_changed(a, b)
    &&& a.pending.evolves_to(&b.pending)
    &&& if a.pools.threads.live(inv.waiter) is Some {
        &&& b.scheduler@ == a.scheduler@.push(inv.waiter.index)
        &&& b.pending == a.pending
    } else {
        &&& b.scheduler@ == a.scheduler@
        &&& b.pending.records() == a.pending.records().update(record.index as int, None)
        &&& b.pending.generations() == a.pending.generations()
    }
}

/// Wake the waiter of a completed record (see [`woken`]). The record must
/// have reached its terminal transition, and the runnable queue must have
/// room.
pub fn wake_waiter(nucleus: &mut Nucleus, record: ObjectId) -> (r: Result<(), CapError>)
    requires
        old(nucleus).wf(),
        old(nucleus).pending.live(record) matches Some(inv) ==> inv.state != PendingState::Waiting,
        old(nucleus).pending.live(record) matches Some(inv) && old(nucleus).pools.threads.live(inv.waiter) is Some
            ==> old(nucleus).scheduler@.len() < Scheduler::CAPACITY,
    ensures
        final(nucleus).wf(),
        old(nucleus).pending.live(record) is None ==> r == Err::<(), CapError>(CapError::InvalidOperation)
            && *final(nucleus) == *old(nucleus),
        old(nucleus).pending.live(record) is Some ==> r == Ok::<(), CapError>(())
            && woken(old(nucleus), final(nucleus), record),
{
    let waiter = nucleus.pending.waiter(record)?;
    proof {
        crate::completion::lemma_evolves_refl(&nucleus.pending);
    }
    if nucleus.pools.threads.validate(waiter).is_ok() {
        let _queued = nucleus.scheduler.push(waiter.index);
    } else {
        let _released = nucleus.pending.release(record);
    }
    Ok(())
}

/// The waiter a live record names.
pub open spec fn waiter_of(n: &Nucleus, record: ObjectId) -> ObjectId {
    n.pending.live(record).unwrap().waiter
}

/// Whether a record's waiter is still a live thread.
pub open spec fn waiter_live(n: &Nucleus, record: ObjectId) -> bool {
    n.pools.threads.live(waiter_of(n, record)) is Some
}

/// The thread indices that waking `records` in order enqueues: those of
/// the live waiters.
pub open spec fn woken_indices(n: &Nucleus, records: Seq<ObjectId>) -> Seq<u16> {
    records.filter(|rec: ObjectId| waiter_live(n, rec)).map_values(|rec: ObjectId| waiter_of(n, rec).index)
}

/// Whether waking `records` releases pending slot `s`: it holds one of the
/// records whose waiter is gone.
pub open spec fn released_slot(n: &Nucleus, records: Seq<ObjectId>, s: int) -> bool {
    exists|k: int| 0 <= k < records.len() && (#[trigger] records[k]).index == s && !waiter_live(n, records[k])
}

/// Wake the waiters of distinct completed records, in order (see
/// [`wake_waiter`]): live waiters join the runnable queue in that order;
/// records whose waiter is gone are released.
pub fn wake_all(nucleus: &mut Nucleus, records: &Vec<ObjectId>) -> (r: Result<(), CapError>)
    requires
        old(nucleus).wf(),
        old(nucleus).scheduler@.len() + woken_indices(old(nucleus), records@).len() <= Scheduler::CAPACITY,
        forall|k: int| 0 <= k < records@.len() ==> (old(nucleus).pending.live(#[trigger] records@[k]) matches Some(inv)
            && inv.state != PendingState::Waiting),
        forall|k: int, l: int| 0 <= k < l < records@.len() ==> records@[k].index != records@[l].index,
    ensures
        final(nucleus).wf(),
        r == Ok::<(), CapError>(()),
        only_wakeup_state_changed(old(nucleus), final(nucleus)),
        old(nucleus).pending.evolves_to(&final(nucleus).pending),
        final(nucleus).scheduler@ == old(nucleus).scheduler@ + woken_indices(old(nucleus), records@),
        final(nucleus).pending.generations() == old(nucleus).pending.generations(),
        forall|s: int| 0 <= s < PendingPool::CAPACITY ==> #[trigger] final(nucleus).pending.records()[s]
            == if released_slot(old(nucleus), records@, s) { None } else { old(nucleus).pending.records()[s] },
{
    let mut k: usize = 0;
    proof {
        crate::completion::lemma_evolves_refl(&nucleus.pending);
        assert(records@.subrange(0, 0).filter(|rec: ObjectId| waiter_live(old(nucleus), rec)) =~= Seq::<ObjectId>::empty());
        assert(old(nucleus).scheduler@ + woken_indices(old(nucleus), records@.subrange(0, 0)) =~= old(nucleus).scheduler@);
    }
    while k < records.len()
        invariant
            nucleus.wf(),
            k <= records@.len(),
            old(nucleus).scheduler@.len() + woken_indices(old(nucleus), records@).len() <= Scheduler::CAPACITY,
            forall|j: int| 0 <= j < records@.len() ==> (old(nucleus).pending.live(#[trigger] records@[j]) matches Some(inv)
                && inv.state != PendingState::Waiting),
            forall|a: int, b: int| 0 <= a < b < records@.len() ==> records@[a].index != records@[b].index,
            only_wakeup_state_changed(old(nucleus), nucleus),
            old(nucleus).pending.evolves_to(&nucleus.pending),
            nucleus.scheduler@ == old(nucleus).scheduler@ + woken_indices(old(nucleus), records@.subrange(0, k as int)),
            nucleus.pending.generations() == old(nucleus).pending.generations(),
            forall|s: int| 0 <= s < PendingPool::CAPACITY ==> #[trigger] nucleus.pending.records()[s]
                == if released_slot(old(nucleus), records@.subrange(0, k as int), s) { None } else { old(nucleus).pending.records()[s] },
        decreases records@.len() - k,
    {
        let record = records[k];
        let ghost before = *nucleus;
        proof {
            let pre = records@.subrange(0, k as int);
            assert(!released_slot(old(nucleus), pre, record.index as int)) by {
                if released_slot(old(nucleus), pre, record.index as int) {
                    let j = choose|j: int| 0 <= j < pre.len() && (#[trigger] pre[j]).index == record.index as int
                        && !waiter_live(old(nucleus), pre[j]);
                    assert(records@[j] == pre[j]);
                }
            }
            assert(nucleus.pending.live(record) == old(nucleus).pending.live(record));
            crate::ring::lemma_filter_prefix_step(records@, k as int, |rec: ObjectId| waiter_live(old(nucleus), rec));
            crate::ring::lemma_filter_facts(pre, |rec: ObjectId| waiter_live(old(nucleus), rec));
            let f = |rec: ObjectId| waiter_live(old(nucleus), rec);
            let post = records@.subrange(0, k as int + 1);
            assert(post =~= pre.push(record));
            records@.lemma_filter_take_len(f, k as int + 1);
            assert(records@.take(k as int + 1) == post);
            if waiter_live(old(nucleus), record) {
                assert(post.filter(f) == pre.filter(f).push(record));
            }
        }
        let _ = wake_waiter(nucleus, record);
        proof {
            let pre = records@.subrange(0, k as int);
            let post = records@.subrange(0, k as int + 1);
            assert(post =~= pre.push(record));
            crate::completion::lemma_evolves_trans(&old(nucleus).pending, &before.pending, &nucleus.pending);
            assert(waiter_of(&before, record) == waiter_of(old(nucleus), record));
            assert(before.pools.threads == old(nucleus).pools.threads);
            let f = |rec: ObjectId| waiter_live(old(nucleus), rec);
            let g = |rec: ObjectId| waiter_of(old(nucleus), rec).index;
            if waiter_live(old(nucleus), record) {
                assert(post.filter(f) == pre.filter(f).push(record));
                assert(post.filter(f).map_values(g) =~= pre.filter(f).map_values(g).push(g(record)));
                assert(nucleus.scheduler@ =~= old(nucleus).scheduler@ + woken_indices(old(nucleus), post));
            } else {
                assert(post.filter(f) == pre.filter(f));
            }
            assert forall|s: int| 0 <= s < PendingPool::CAPACITY implies #[trigger] nucleus.pending.records()[s]
                == if released_slot(old(nucleus), post, s) { None } else { old(nucleus).pending.records()[s] } by {
                if released_slot(old(nucleus), pre, s) {
                    let j = choose|j: int| 0 <= j < pre.len() && (#[trigger] pre[j]).index == s
                        && !waiter_live(old(nucleus), pre[j]);
                    assert(post[j] == pre[j]);
                }
                if released_slot(old(nucleus), post, s) && !released_slot(old(nucleus), pre, s) {
                    let j = choose|j: int| 0 <= j < post.len() && (#[trigger] post[j]).index == s
                        && !waiter_live(old(nucleus), post[j]);
                    if j < k {
                        assert(pre[j] == post[j]);
                    }
                }
                if !waiter_live(old(nucleus), record) && s == record.index as int {
                    assert(post[k as int] == record);
                }
            }
        }
        k = k + 1;
    }
    proof {
        assert(records@.subrange(0, records@.len() as int) =~= records@);
    }
    Ok(())
}

} // verus!
