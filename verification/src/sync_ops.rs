//! `Notification` and `EventCount` invocations.
//!
//! Notification: `Signal` `0` (`x2` bits, used when the capability's badge
//! is zero; the badge otherwise) ORs the bits in and wakes at most one
//! waiter; `Wait` `1` (`x2` timeout, only `u64::MAX` = infinite) consumes
//! pending bits or blocks; `Poll` `2` consumes pending bits, possibly none.
//! `Signal` needs `SEND`; `Wait` and `Poll` need `RECV`.
//!
//! EventCount: `Advance` `0` (`x2` nonzero delta) adds and completes every
//! satisfied `Await`, or on overflow leaves the counter and fails every
//! queued `Await` with the same error; `Await` `1` (`x2` target, `x3`
//! timeout, only infinite) returns the value once it reaches the target or
//! blocks; `Read` `2` returns the value. `Advance` needs `SEND`; `Await`
//! and `Read` need `RECV`. Unused argument words must be zero.

use vstd::prelude::*;
use crate::access::{ObjectId, PoolTag};
use crate::completion::{all_waiting_distinct, names_slot, transitioned_all, PendingInvocation, PendingKind, PendingPool, PendingState, WaitQueue};
use crate::error::CapError;
use crate::event_count::{
    advanced_state, ids, overflow_state, satisfied, unsatisfied, AdvanceOutcome, AwaitOutcome, AwaitQueue, EventCount,
};
use crate::invoke::{
    cap_entry, current_waiter, lookup_entry, released_slot, spec_current_waiter, waiter_live, waiter_of, wake_all,
    wake_waiter, woken, woken_indices, InvokeOutcome,
};
use crate::key::RawKey;
use crate::key_entry::KeyEntry;
use crate::key_table::CallerTable;
use crate::notification::{Notification, WaitOutcome};
use crate::nucleus::Nucleus;
use crate::object_pool::ObjectPool;
use crate::object_type::ObjectType;
use crate::rights::{bits_contain, Rights};
use crate::sched::Scheduler;
use crate::ring::ring_index;
use crate::syscall_status;
use crate::table_ops::views;

verus! {

/// The checked identity an identity capability carries.
pub open spec fn entry_id(e: KeyEntry) -> ObjectId {
    ObjectId {
        pool: crate::access::spec_tag_from_byte(e.payload->Object_0.pool),
        index: e.payload->Object_0.index,
        generation: e.payload->Object_0.generation,
    }
}

/// The capability `key` names in the caller's table, which must be of kind
/// `expected` (key errors report `operand`).
pub open spec fn typed_entry_at(n: &Nucleus, caller: CallerTable, key: RawKey, operand: u8, expected: u8)
    -> Result<KeyEntry, CapError> {
    match cap_entry(views(n.tables@), caller, key, operand) {
        Err(e) => Err(e),
        Ok(e) => if e.obj_type.0 != expected {
            Err(CapError::TypeMismatch { expected: ObjectType(expected), found: e.obj_type })
        } else {
            Ok(e)
        },
    }
}

/// [`typed_entry_at`] for the invoked capability (operand zero).
pub open spec fn typed_entry(n: &Nucleus, caller: CallerTable, key: RawKey, expected: u8) -> Result<KeyEntry, CapError> {
    typed_entry_at(n, caller, key, 0, expected)
}

/// Look up a capability of kind `expected` (see [`typed_entry_at`]).
pub fn lookup_typed_at(n: &Nucleus, caller: CallerTable, key: RawKey, operand: u8, expected: u8)
    -> (r: Result<KeyEntry, CapError>)
    requires
        n.wf(),
    ensures
        r == typed_entry_at(n, caller, key, operand, expected),
        r matches Ok(e) ==> e.wf(),
{
    let entry = lookup_entry(&n.tables, caller, key, operand)?;
    if entry.object_type().0 != expected {
        return Err(CapError::TypeMismatch { expected: ObjectType(expected), found: entry.object_type() });
    }
    Ok(entry)
}

/// Look up the invoked capability of kind `expected` (see [`typed_entry`]).
pub fn lookup_typed(n: &Nucleus, caller: CallerTable, key: RawKey, expected: u8) -> (r: Result<KeyEntry, CapError>)
    requires
        n.wf(),
    ensures
        r == typed_entry(n, caller, key, expected),
        r matches Ok(e) ==> e.wf(),
{
    lookup_typed_at(n, caller, key, 0, expected)
}

/// `b`'s pool is `a`'s with only the object in slot `index` replaced.
pub open spec fn pool_slot_updated<T: crate::nucleus_object::NucleusObject>(a: ObjectPool<T>, b: ObjectPool<T>, index: int) -> bool {
    &&& b.meta() == a.meta()
    &&& b.tag() == a.tag()
    &&& b.capacity() == a.capacity()
    &&& b.next_free() == a.next_free()
    &&& b.spec_len() == a.spec_len()
    &&& b.objects().len() == a.objects().len()
    &&& b.objects()[index] is Some
    &&& forall|s: int| 0 <= s < a.objects().len() && s != index ==> #[trigger] b.objects()[s] == a.objects()[s]
}

/// Everything but the notifications, pending records and runnable queue is
/// unchanged.
pub open spec fn sync_frame(a: &Nucleus, b: &Nucleus) -> bool {
    &&& b.pools.threads == a.pools.threads
    &&& b.pools.event_counts == a.pools.event_counts
    &&& b.pools.arch == a.pools.arch
    &&& b.tables == a.tables
    &&& b.phys == a.phys
    &&& b.dcb_pages == a.dcb_pages
    &&& b.current_thread == a.current_thread
    &&& b.hw == a.hw
}

/// The record a signal completes with the delivered bits.
pub open spec fn delivered(inv: PendingInvocation, bits: u64) -> PendingInvocation {
    PendingInvocation {
        state: PendingState::Completed { status: syscall_status::SUCCESS, result0: bits, result1: 0 },
        ..inv
    }
}

/// What `Signal` with `bits` does to the live notification `id`: with no
/// waiter the bits are ORed in; otherwise the front waiter's record
/// completes with the pending bits ORed with `bits`, which are consumed,
/// and its thread is woken (or the record released if the thread is gone).
pub open spec fn signal_done(a: &Nucleus, b: &Nucleus, id: ObjectId, bits: u64, r: Result<InvokeOutcome, CapError>) -> bool {
    let i = id.index as int;
    match a.pools.notifications.live(id) {
        None => r == Err::<InvokeOutcome, CapError>(CapError::InvalidOperation) && *b == *a,
        Some(n) => {
            let n2 = b.pools.notifications.objects()[i].unwrap();
            &&& sync_frame(a, b)
            &&& pool_slot_updated(a.pools.notifications, b.pools.notifications, i)
            &&& if n.queued().len() == 0 {
                &&& r == Ok::<InvokeOutcome, CapError>(InvokeOutcome::Complete((0, 0)))
                &&& n2.bits() == n.bits() | bits
                &&& n2.queued() == n.queued()
                &&& b.pending == a.pending
                &&& b.scheduler == a.scheduler
            } else {
                let rec = n.queued()[0];
                &&& n2.bits() == 0
                &&& n2.queued() == n.queued().drop_first()
                &&& match a.pending.live(rec) {
                    Some(inv) if inv.state == PendingState::Waiting => {
                        &&& r == Ok::<InvokeOutcome, CapError>(InvokeOutcome::Complete((0, 0)))
                        &&& b.pending.generations() == a.pending.generations()
                        &&& if a.pools.threads.live(inv.waiter) is Some {
                            &&& b.pending.records() == a.pending.records().update(rec.index as int,
                                Some(delivered(inv, n.bits() | bits)))
                            &&& b.scheduler@ == a.scheduler@.push(inv.waiter.index)
                        } else {
                            &&& b.pending.records() == a.pending.records().update(rec.index as int, None)
                            &&& b.scheduler@ == a.scheduler@
                        }
                    },
                    _ => r == Err::<InvokeOutcome, CapError>(CapError::InvalidOperation)
                        && b.pending == a.pending && b.scheduler == a.scheduler,
                }
            }
        },
    }
}

/// What `Wait` by `waiter` does to the live notification `id`: pending bits
/// are consumed and returned; otherwise the caller blocks on a fresh
/// pending record queued behind the other waiters, unless the wait queue
/// or the record pool is full.
pub open spec fn wait_done(a: &Nucleus, b: &Nucleus, id: ObjectId, waiter: ObjectId, r: Result<InvokeOutcome, CapError>) -> bool {
    let i = id.index as int;
    match a.pools.notifications.live(id) {
        None => r == Err::<InvokeOutcome, CapError>(CapError::InvalidOperation) && *b == *a,
        Some(n) => {
            let n2 = b.pools.notifications.objects()[i].unwrap();
            &&& sync_frame(a, b)
            &&& b.scheduler == a.scheduler
            &&& pool_slot_updated(a.pools.notifications, b.pools.notifications, i)
            &&& n2.bits() == 0
            &&& if n.bits() != 0 {
                &&& r == Ok::<InvokeOutcome, CapError>(InvokeOutcome::Complete((n.bits(), 0)))
                &&& n2.queued() == n.queued()
                &&& b.pending == a.pending
            } else if n.queued().len() == WaitQueue::CAPACITY {
                &&& r == Err::<InvokeOutcome, CapError>(CapError::PoolExhausted)
                &&& n2.queued() == n.queued()
                &&& b.pending == a.pending
            } else {
                match a.pending.next_fit() {
                    None => {
                        &&& r == Err::<InvokeOutcome, CapError>(CapError::PoolExhausted)
                        &&& n2.queued() == n.queued()
                        &&& b.pending == a.pending
                    },
                    Some(s) => {
                        let record = ObjectId {
                            pool: PoolTag::Pending,
                            index: s as u16,
                            generation: (a.pending.generations()[s] + 1) as u32,
                        };
                        &&& r == Ok::<InvokeOutcome, CapError>(InvokeOutcome::Blocked(record))
                        &&& n2.queued() == n.queued().push(record)
                        &&& b.pending.records() == a.pending.records().update(s, Some(PendingInvocation {
                            waiter,
                            kind: PendingKind::NotificationWait,
                            state: PendingState::Waiting,
                        }))
                        &&& b.pending.generations() == a.pending.generations().update(s,
                            (a.pending.generations()[s] + 1) as u32)
                        &&& b.pending.next_free() == ring_index(s, 1, PendingPool::CAPACITY as int)
                    },
                }
            }
        },
    }
}

/// What `Poll` does to the live notification `id`: pending bits, possibly
/// none, are consumed and returned.
pub open spec fn poll_done(a: &Nucleus, b: &Nucleus, id: ObjectId, r: Result<InvokeOutcome, CapError>) -> bool {
    let i = id.index as int;
    match a.pools.notifications.live(id) {
        None => r == Err::<InvokeOutcome, CapError>(CapError::InvalidOperation) && *b == *a,
        Some(n) => {
            let n2 = b.pools.notifications.objects()[i].unwrap();
            &&& sync_frame(a, b)
            &&& b.scheduler == a.scheduler
            &&& b.pending == a.pending
            &&& pool_slot_updated(a.pools.notifications, b.pools.notifications, i)
            &&& r == Ok::<InvokeOutcome, CapError>(InvokeOutcome::Complete((n.bits(), 0)))
            &&& n2.bits() == 0
            &&& n2.queued() == n.queued()
        },
    }
}

/// What a `Notification` invocation does (see the module documentation).
pub open spec fn notification_done(a: &Nucleus, b: &Nucleus, caller: CallerTable, key: RawKey, op: u64,
    args: Seq<u64>, r: Result<InvokeOutcome, CapError>) -> bool {
    if op > 2 {
        r == Err::<InvokeOutcome, CapError>(CapError::InvalidOperation) && *b == *a
    } else {
        match typed_entry(a, caller, key, ObjectType::NOTIFICATION) {
            Err(e) => r == Err::<InvokeOutcome, CapError>(e) && *b == *a,
            Ok(e) => {
                let id = entry_id(e);
                if op == 0 {
                    if !bits_contain(e.rights.0, Rights::SEND) {
                        r == Err::<InvokeOutcome, CapError>(CapError::InsufficientRights) && *b == *a
                    } else if args[1] != 0 || args[2] != 0 || args[3] != 0 || args[4] != 0 || args[5] != 0 {
                        r == Err::<InvokeOutcome, CapError>(CapError::InvalidOperation) && *b == *a
                    } else {
                        signal_done(a, b, id, if e.badge != 0 { e.badge as u64 } else { args[0] }, r)
                    }
                } else if op == 1 {
                    if !bits_contain(e.rights.0, Rights::RECV) {
                        r == Err::<InvokeOutcome, CapError>(CapError::InsufficientRights) && *b == *a
                    } else if args[1] != 0 || args[2] != 0 || args[3] != 0 || args[4] != 0 || args[5] != 0
                        || args[0] != u64::MAX {
                        r == Err::<InvokeOutcome, CapError>(CapError::InvalidOperation) && *b == *a
                    } else {
                        match spec_current_waiter(a) {
                            Err(err) => r == Err::<InvokeOutcome, CapError>(err) && *b == *a,
                            Ok(waiter) => wait_done(a, b, id, waiter, r),
                        }
                    }
                } else {
                    if !bits_contain(e.rights.0, Rights::RECV) {
                        r == Err::<InvokeOutcome, CapError>(CapError::InsufficientRights) && *b == *a
                    } else if args[0] != 0 || args[1] != 0 || args[2] != 0 || args[3] != 0 || args[4] != 0
                        || args[5] != 0 {
                        r == Err::<InvokeOutcome, CapError>(CapError::InvalidOperation) && *b == *a
                    } else {
                        poll_done(a, b, id, r)
                    }
                }
            },
        }
    }
}

/// How many threads `Signal` on `id` makes runnable: one when the front
/// waiter's record is waiting and its thread is live, else none.
pub open spec fn signal_wakes(a: &Nucleus, id: ObjectId) -> nat {
    match a.pools.notifications.live(id) {
        Some(n) => if n.queued().len() > 0 {
            match a.pending.live(n.queued()[0]) {
                Some(inv) => if inv.state == PendingState::Waiting && a.pools.threads.live(inv.waiter) is Some {
                    1nat
                } else {
                    0nat
                },
                None => 0nat,
            }
        } else {
            0nat
        },
        None => 0nat,
    }
}

/// How many threads a `Notification` invocation makes runnable.
pub open spec fn notification_wakes(a: &Nucleus, caller: CallerTable, key: RawKey, op: u64, args: Seq<u64>) -> nat {
    if op != 0 {
        0
    } else {
        match typed_entry(a, caller, key, ObjectType::NOTIFICATION) {
            Err(_) => 0,
            Ok(e) => if bits_contain(e.rights.0, Rights::SEND) && args[1] == 0 && args[2] == 0 && args[3] == 0
                && args[4] == 0 && args[5] == 0 {
                signal_wakes(a, entry_id(e))
            } else {
                0
            },
        }
    }
}

/// How many threads `Signal` on `id` would make runnable (see
/// [`signal_wakes`]).
pub fn signal_wake_count(n: &Nucleus, id: ObjectId) -> (r: usize)
    requires
        n.wf(),
    ensures
        r == signal_wakes(n, id),
{
    match n.pools.notifications.validate(id) {
        Err(_) => 0,
        Ok(notification) => match notification.front_waiter() {
            None => 0,
            Some(record) => match n.pending.state(record) {
                Ok(PendingState::Waiting) => match n.pending.waiter(record) {
                    Ok(waiter) => if n.pools.threads.validate(waiter).is_ok() { 1 } else { 0 },
                    Err(_) => 0,
                },
                _ => 0,
            },
        },
    }
}

/// How many threads a `Notification` invocation would make runnable (see
/// [`notification_wakes`]).
pub fn notification_wake_count(n: &Nucleus, caller: CallerTable, key: RawKey, op: u64, args: &[u64; 6])
    -> (r: usize)
    requires
        n.wf(),
    ensures
        r == notification_wakes(n, caller, key, op, args@),
{
    if op != 0 {
        return 0;
    }
    let entry = match lookup_typed(n, caller, key, ObjectType::NOTIFICATION) {
        Ok(e) => e,
        Err(_) => {
            return 0;
        },
    };
    if !entry.rights().has(Rights::SEND) || args[1] != 0 || args[2] != 0 || args[3] != 0 || args[4] != 0
        || args[5] != 0 {
        return 0;
    }
    match entry.object_id() {
        Ok(id) => signal_wake_count(n, id),
        Err(_) => 0,
    }
}

/// Handle a `Notification` invocation (see [`notification_done`]). The
/// runnable queue must have room for the thread it wakes, if any.
pub fn notification_invoke(nucleus: &mut Nucleus, caller: CallerTable, key: RawKey, op: u64, args: &[u64; 6])
    -> (r: Result<InvokeOutcome, CapError>)
    requires
        old(nucleus).wf(),
        old(nucleus).scheduler@.len() + notification_wakes(old(nucleus), caller, key, op, args@) <= Scheduler::CAPACITY,
    ensures
        final(nucleus).wf(),
        notification_done(old(nucleus), final(nucleus), caller, key, op, args@, r),
{
    if op > 2 {
        return Err(CapError::InvalidOperation);
    }
    let entry = lookup_typed(nucleus, caller, key, ObjectType::NOTIFICATION)?;
    let id = match entry.object_id() {
        Ok(id) => id,
        Err(e) => {
            return Err(e.with_key_operand(0));
        },
    };
    let rights = entry.rights();
    let badge = entry.badge();
    if op == 0 {
        if !rights.has(Rights::SEND) {
            return Err(CapError::InsufficientRights);
        }
        if args[1] != 0 || args[2] != 0 || args[3] != 0 || args[4] != 0 || args[5] != 0 {
            return Err(CapError::InvalidOperation);
        }
        let bits = if badge != 0 { badge as u64 } else { args[0] };
        let signalled = match nucleus.pools.notifications.validate_mut(id) {
            Err(e) => {
                return Err(e);
            },
            Ok(notification) => {
                proof {
                    notification.lemma_bounded();
                }
                notification.signal(bits, &mut nucleus.pending)
            },
        };
        let ghost mid = *nucleus;
        match signalled {
            Err(e) => Err(e),
            Ok(None) => Ok(InvokeOutcome::Complete((0, 0))),
            Ok(Some(record)) => {
                let _ = wake_waiter(nucleus, record);
                proof {
                    crate::completion::lemma_evolves_trans(&old(nucleus).pending, &mid.pending, &nucleus.pending);
                    let inv = old(nucleus).pending.live(record).unwrap();
                    if old(nucleus).pools.threads.live(inv.waiter) is None {
                        assert(nucleus.pending.records() =~= old(nucleus).pending.records().update(record.index as int, None));
                    }
                }
                Ok(InvokeOutcome::Complete((0, 0)))
            },
        }
    } else if op == 1 {
        if !rights.has(Rights::RECV) {
            return Err(CapError::InsufficientRights);
        }
        if args[1] != 0 || args[2] != 0 || args[3] != 0 || args[4] != 0 || args[5] != 0 {
            return Err(CapError::InvalidOperation);
        }
        if args[0] != u64::MAX {
            return Err(CapError::InvalidOperation);
        }
        let waiter = current_waiter(nucleus)?;
        let r = match nucleus.pools.notifications.validate_mut(id) {
            Err(e) => Err(e),
            Ok(notification) => {
                proof {
                    notification.lemma_bounded();
                }
                let w = notification.wait(waiter, &mut nucleus.pending);
                match w {
                    Err(e) => Err(e),
                    Ok(WaitOutcome::Ready(bits)) => Ok(InvokeOutcome::Complete((bits, 0))),
                    Ok(WaitOutcome::Blocked(record)) => Ok(InvokeOutcome::Blocked(record)),
                }
            },
        };
        assert(wait_done(old(nucleus), nucleus, id, waiter, r));
        r
    } else {
        if !rights.has(Rights::RECV) {
            return Err(CapError::InsufficientRights);
        }
        if args[0] != 0 || args[1] != 0 || args[2] != 0 || args[3] != 0 || args[4] != 0 || args[5] != 0 {
            return Err(CapError::InvalidOperation);
        }
        let r = match nucleus.pools.notifications.validate_mut(id) {
            Err(e) => Err(e),
            Ok(notification) => Ok(InvokeOutcome::Complete((notification.poll(), 0))),
        };
        assert(poll_done(old(nucleus), nucleus, id, r));
        r
    }
}

/// The pending records and runnable queue after every record in `woke`
/// reached the terminal `state` and was woken: a record whose waiter is a
/// live thread keeps its completion and its thread joins the runnable
/// queue in order; a record whose waiter is gone is released.
pub open spec fn completed_and_woken(a: &Nucleus, b: &Nucleus, woke: Seq<ObjectId>, state: PendingState) -> bool {
    &&& b.pending.generations() == a.pending.generations()
    &&& a.pending.evolves_to(&b.pending)
    &&& b.scheduler@ == a.scheduler@ + woken_indices(a, woke)
    &&& forall|s: int| 0 <= s < PendingPool::CAPACITY ==> #[trigger] b.pending.records()[s] == if names_slot(woke, s) {
        if a.pools.threads.live(a.pending.records()[s].unwrap().waiter) is Some {
            Some(PendingInvocation { state, ..a.pending.records()[s].unwrap() })
        } else {
            None
        }
    } else {
        a.pending.records()[s]
    }
}

/// Completing distinct waiting records and then waking them composes into
/// [`completed_and_woken`].
proof fn lemma_complete_then_wake(a: &Nucleus, mid: &Nucleus, b: &Nucleus, woke: Seq<ObjectId>, state: PendingState)
    requires
        a.wf(),
        mid.wf(),
        state != PendingState::Waiting,
        all_waiting_distinct(&a.pending, woke),
        transitioned_all(a.pending.records(), woke, mid.pending.records(), state),
        mid.pending.generations() == a.pending.generations(),
        a.pending.evolves_to(&mid.pending),
        mid.pools.threads == a.pools.threads,
        mid.scheduler@ == a.scheduler@,
        mid.pending.evolves_to(&b.pending),
        b.scheduler@ == mid.scheduler@ + woken_indices(mid, woke),
        b.pending.generations() == mid.pending.generations(),
        forall|s: int| 0 <= s < PendingPool::CAPACITY ==> #[trigger] b.pending.records()[s]
            == if released_slot(mid, woke, s) { None } else { mid.pending.records()[s] },
    ensures
        completed_and_woken(a, b, woke, state),
{
    crate::completion::lemma_evolves_trans(&a.pending, &mid.pending, &b.pending);
    assert forall|k: int| 0 <= k < woke.len() implies waiter_of(mid, #[trigger] woke[k]) == waiter_of(a, woke[k])
        && waiter_live(mid, woke[k]) == waiter_live(a, woke[k]) by {
        let s = woke[k].index as int;
        assert(names_slot(woke, s));
    }
    assert(woke.filter(|rec: ObjectId| waiter_live(mid, rec)) == woke.filter(|rec: ObjectId| waiter_live(a, rec))) by {
        lemma_filter_congruent(woke, |rec: ObjectId| waiter_live(mid, rec), |rec: ObjectId| waiter_live(a, rec));
    }
    let f = woke.filter(|rec: ObjectId| waiter_live(a, rec));
    crate::ring::lemma_filter_facts(woke, |rec: ObjectId| waiter_live(a, rec));
    assert forall|k: int| 0 <= k < f.len() implies waiter_of(mid, #[trigger] f[k]) == waiter_of(a, f[k]) by {
        woke.lemma_filter_contains_rev(|rec: ObjectId| waiter_live(a, rec), f[k]);
        assert(f.contains(f[k]));
        let j = choose|j: int| 0 <= j < woke.len() && woke[j] == f[k];
        assert(waiter_of(mid, woke[j]) == waiter_of(a, woke[j]));
    }
    assert(woken_indices(mid, woke) =~= woken_indices(a, woke));
    assert forall|s: int| 0 <= s < PendingPool::CAPACITY implies #[trigger] b.pending.records()[s] == if names_slot(woke, s) {
        if a.pools.threads.live(a.pending.records()[s].unwrap().waiter) is Some {
            Some(PendingInvocation { state, ..a.pending.records()[s].unwrap() })
        } else {
            None
        }
    } else {
        a.pending.records()[s]
    } by {
        if names_slot(woke, s) {
            let k = choose|k: int| 0 <= k < woke.len() && (#[trigger] woke[k]).index as int == s;
            assert(a.pending.live(woke[k]) is Some);
            if released_slot(mid, woke, s) {
                let j = choose|j: int| 0 <= j < woke.len() && (#[trigger] woke[j]).index == s && !waiter_live(mid, woke[j]);
                assert(a.pending.live(woke[j]) is Some);
            } else {
                if !waiter_live(a, woke[k]) {
                    assert(released_slot(mid, woke, s));
                }
            }
        } else {
            if released_slot(mid, woke, s) {
                let j = choose|j: int| 0 <= j < woke.len() && (#[trigger] woke[j]).index == s && !waiter_live(mid, woke[j]);
                assert(names_slot(woke, s));
            }
        }
    }
}

/// Filtering by two predicates that agree on the sequence gives the same
/// result.
proof fn lemma_filter_congruent<A>(s: Seq<A>, p: spec_fn(A) -> bool, q: spec_fn(A) -> bool)
    requires
        forall|k: int| 0 <= k < s.len() ==> p(#[trigger] s[k]) == q(s[k]),
    ensures
        s.filter(p) == s.filter(q),
    decreases s.len(),
{
    reveal(Seq::filter);
    if s.len() > 0 {
        lemma_filter_congruent(s.drop_last(), p, q);
        assert(p(s[s.len() - 1]) == q(s[s.len() - 1]));
    }
}

/// Everything but the event counts, pending records and runnable queue is
/// unchanged.
pub open spec fn counter_frame(a: &Nucleus, b: &Nucleus) -> bool {
    &&& b.pools.threads == a.pools.threads
    &&& b.pools.notifications == a.pools.notifications
    &&& b.pools.arch == a.pools.arch
    &&& b.tables == a.tables
    &&& b.phys == a.phys
    &&& b.dcb_pages == a.dcb_pages
    &&& b.current_thread == a.current_thread
    &&& b.hw == a.hw
}

/// What `Advance` by `delta` does to the live event count `id`: a zero
/// delta is invalid; otherwise, if every waiter to complete is a distinct
/// waiting record, the counter advances and the satisfied waiters complete
/// with the new value (or, on overflow, the counter stays and every waiter
/// completes with the overflow status, and the invocation fails with
/// `CounterOverflow`), and the completed waiters are woken.
pub open spec fn advance_done(a: &Nucleus, b: &Nucleus, id: ObjectId, delta: u64, r: Result<InvokeOutcome, CapError>) -> bool {
    let i = id.index as int;
    match a.pools.event_counts.live(id) {
        None => r == Err::<InvokeOutcome, CapError>(CapError::InvalidOperation) && *b == *a,
        Some(ec) => {
            let ec2 = b.pools.event_counts.objects()[i].unwrap();
            &&& counter_frame(a, b)
            &&& pool_slot_updated(a.pools.event_counts, b.pools.event_counts, i)
            &&& if delta == 0 {
                &&& r == Err::<InvokeOutcome, CapError>(CapError::InvalidOperation)
                &&& ec2.spec_value() == ec.spec_value() && ec2.queued() == ec.queued()
                &&& b.pending == a.pending && b.scheduler == a.scheduler
            } else if ec.spec_value() + delta > u64::MAX {
                let all = ids(ec.queued());
                &&& ec2.spec_value() == ec.spec_value()
                &&& if all_waiting_distinct(&a.pending, all) {
                    &&& r == Err::<InvokeOutcome, CapError>(CapError::CounterOverflow)
                    &&& ec2.queued() == Seq::<(ObjectId, u64)>::empty()
                    &&& completed_and_woken(a, b, all, overflow_state())
                } else {
                    r == Err::<InvokeOutcome, CapError>(CapError::InvalidOperation)
                }
            } else {
                let nv = (ec.spec_value() + delta) as u64;
                let woke = ids(satisfied(ec.queued(), nv));
                &&& ec2.spec_value() == nv
                &&& if all_waiting_distinct(&a.pending, woke) {
                    &&& r == Ok::<InvokeOutcome, CapError>(InvokeOutcome::Complete((nv, 0)))
                    &&& ec2.queued() == unsatisfied(ec.queued(), nv)
                    &&& completed_and_woken(a, b, woke, advanced_state(nv))
                } else {
                    r == Err::<InvokeOutcome, CapError>(CapError::InvalidOperation)
                }
            }
        },
    }
}

/// What `Await` of `target` by `waiter` does to the live event count `id`:
/// a reached target returns the value; otherwise the caller blocks on a
/// fresh record queued with its target, unless the queue or the record
/// pool is full.
pub open spec fn await_done(a: &Nucleus, b: &Nucleus, id: ObjectId, target: u64, waiter: ObjectId,
    r: Result<InvokeOutcome, CapError>) -> bool {
    let i = id.index as int;
    match a.pools.event_counts.live(id) {
        None => r == Err::<InvokeOutcome, CapError>(CapError::InvalidOperation) && *b == *a,
        Some(ec) => {
            let ec2 = b.pools.event_counts.objects()[i].unwrap();
            &&& counter_frame(a, b)
            &&& b.scheduler == a.scheduler
            &&& pool_slot_updated(a.pools.event_counts, b.pools.event_counts, i)
            &&& ec2.spec_value() == ec.spec_value()
            &&& if ec.spec_value() >= target {
                &&& r == Ok::<InvokeOutcome, CapError>(InvokeOutcome::Complete((ec.spec_value(), 0)))
                &&& ec2.queued() == ec.queued()
                &&& b.pending == a.pending
            } else if ec.queued().len() == AwaitQueue::CAPACITY {
                &&& r == Err::<InvokeOutcome, CapError>(CapError::PoolExhausted)
                &&& ec2.queued() == ec.queued()
                &&& b.pending == a.pending
            } else {
                match a.pending.next_fit() {
                    None => {
                        &&& r == Err::<InvokeOutcome, CapError>(CapError::PoolExhausted)
                        &&& ec2.queued() == ec.queued()
                        &&& b.pending == a.pending
                    },
                    Some(s) => {
                        let record = ObjectId {
                            pool: PoolTag::Pending,
                            index: s as u16,
                            generation: (a.pending.generations()[s] + 1) as u32,
                        };
                        &&& r == Ok::<InvokeOutcome, CapError>(InvokeOutcome::Blocked(record))
                        &&& ec2.queued() == ec.queued().push((record, target))
                        &&& b.pending.records() == a.pending.records().update(s, Some(PendingInvocation {
                            waiter,
                            kind: PendingKind::EventCountAwait,
                            state: PendingState::Waiting,
                        }))
                        &&& b.pending.generations() == a.pending.generations().update(s,
                            (a.pending.generations()[s] + 1) as u32)
                        &&& b.pending.next_free() == ring_index(s, 1, PendingPool::CAPACITY as int)
                    },
                }
            }
        },
    }
}

/// What an `EventCount` invocation does (see the module documentation).
pub open spec fn event_count_done(a: &Nucleus, b: &Nucleus, caller: CallerTable, key: RawKey, op: u64,
    args: Seq<u64>, r: Result<InvokeOutcome, CapError>) -> bool {
    if op > 2 {
        r == Err::<InvokeOutcome, CapError>(CapError::InvalidOperation) && *b == *a
    } else {
        match typed_entry(a, caller, key, ObjectType::EVENT_COUNT) {
            Err(e) => r == Err::<InvokeOutcome, CapError>(e) && *b == *a,
            Ok(e) => {
                let id = entry_id(e);
                if op == 0 {
                    if !bits_contain(e.rights.0, Rights::SEND) {
                        r == Err::<InvokeOutcome, CapError>(CapError::InsufficientRights) && *b == *a
                    } else if args[1] != 0 || args[2] != 0 || args[3] != 0 || args[4] != 0 || args[5] != 0 {
                        r == Err::<InvokeOutcome, CapError>(CapError::InvalidOperation) && *b == *a
                    } else {
                        advance_done(a, b, id, args[0], r)
                    }
                } else if op == 1 {
                    if !bits_contain(e.rights.0, Rights::RECV) {
                        r == Err::<InvokeOutcome, CapError>(CapError::InsufficientRights) && *b == *a
                    } else if args[2] != 0 || args[3] != 0 || args[4] != 0 || args[5] != 0 || args[1] != u64::MAX {
                        r == Err::<InvokeOutcome, CapError>(CapError::InvalidOperation) && *b == *a
                    } else {
                        match spec_current_waiter(a) {
                            Err(err) => r == Err::<InvokeOutcome, CapError>(err) && *b == *a,
                            Ok(waiter) => await_done(a, b, id, args[0], waiter, r),
                        }
                    }
                } else {
                    if !bits_contain(e.rights.0, Rights::RECV) {
                        r == Err::<InvokeOutcome, CapError>(CapError::InsufficientRights) && *b == *a
                    } else if args[0] != 0 || args[1] != 0 || args[2] != 0 || args[3] != 0 || args[4] != 0
                        || args[5] != 0 {
                        r == Err::<InvokeOutcome, CapError>(CapError::InvalidOperation) && *b == *a
                    } else {
                        match a.pools.event_counts.live(id) {
                            None => r == Err::<InvokeOutcome, CapError>(CapError::InvalidOperation) && *b == *a,
                            Some(ec) => r == Ok::<InvokeOutcome, CapError>(InvokeOutcome::Complete((ec.spec_value(), 0)))
                                && counter_frame(a, b) && b.pending == a.pending && b.scheduler == a.scheduler
                                && pool_slot_updated(a.pools.event_counts, b.pools.event_counts, id.index as int)
                                && b.pools.event_counts.objects()[id.index as int] == Some(ec),
                        }
                    }
                }
            },
        }
    }
}

/// Distinct live records have distinct slots.
proof fn lemma_distinct_slots(p: &PendingPool, records: Seq<ObjectId>)
    requires
        all_waiting_distinct(p, records),
    ensures
        forall|k: int, l: int| 0 <= k < l < records.len() ==> records[k].index != records[l].index,
{
    assert forall|k: int, l: int| 0 <= k < l < records.len() implies records[k].index != records[l].index by {
        assert(p.live(records[k]) is Some);
        assert(p.live(records[l]) is Some);
        assert(records[k] != records[l]);
    }
}

/// The records an advance completed are terminal and distinct.
proof fn lemma_completed_records(a: &PendingPool, b: &PendingPool, records: Seq<ObjectId>, state: PendingState)
    requires
        a.wf(),
        b.wf(),
        all_waiting_distinct(a, records),
        transitioned_all(a.records(), records, b.records(), state),
        b.generations() == a.generations(),
        state != PendingState::Waiting,
    ensures
        forall|k: int| 0 <= k < records.len() ==> (b.live(#[trigger] records[k]) matches Some(inv)
            && inv.state != PendingState::Waiting),
        forall|k: int, l: int| 0 <= k < l < records.len() ==> records[k].index != records[l].index,
{
    lemma_distinct_slots(a, records);
    assert forall|k: int| 0 <= k < records.len() implies (b.live(#[trigger] records[k]) matches Some(inv)
        && inv.state != PendingState::Waiting) by {
        let s = records[k].index as int;
        assert(names_slot(records, s));
        assert(a.live(records[k]) is Some);
        assert(b.records()[s] == Some(PendingInvocation { state, ..a.records()[s].unwrap() }));
        assert(b.live(records[k]) == Some(PendingInvocation { state, ..a.records()[s].unwrap() }));
    }
}

/// The records `Advance` by a nonzero `delta` completes on `ec`: every
/// queued await on overflow, else the ones the new value satisfies.
pub open spec fn advance_woke(ec: EventCount, delta: u64) -> Seq<ObjectId> {
    if ec.spec_value() + delta > u64::MAX {
        ids(ec.queued())
    } else {
        ids(satisfied(ec.queued(), (ec.spec_value() + delta) as u64))
    }
}

/// How many threads `Advance` by `delta` on `id` makes runnable: the live
/// waiters of the records it completes.
pub open spec fn advance_wakes(a: &Nucleus, id: ObjectId, delta: u64) -> nat {
    match a.pools.event_counts.live(id) {
        Some(ec) => if delta != 0 && all_waiting_distinct(&a.pending, advance_woke(ec, delta)) {
            woken_indices(a, advance_woke(ec, delta)).len()
        } else {
            0
        },
        None => 0,
    }
}

/// How many threads an `EventCount` invocation makes runnable.
pub open spec fn event_count_wakes(a: &Nucleus, caller: CallerTable, key: RawKey, op: u64, args: Seq<u64>) -> nat {
    if op != 0 {
        0
    } else {
        match typed_entry(a, caller, key, ObjectType::EVENT_COUNT) {
            Err(_) => 0,
            Ok(e) => if bits_contain(e.rights.0, Rights::SEND) && args[1] == 0 && args[2] == 0 && args[3] == 0
                && args[4] == 0 && args[5] == 0 {
                advance_wakes(a, entry_id(e), args[0])
            } else {
                0
            },
        }
    }
}

/// Waking the same records from two states whose threads and record
/// waiters agree enqueues the same thread indices.
proof fn lemma_woken_indices_stable(a: &Nucleus, b: &Nucleus, records: Seq<ObjectId>)
    requires
        b.pools.threads == a.pools.threads,
        forall|k: int| 0 <= k < records.len() ==> waiter_of(b, #[trigger] records[k]) == waiter_of(a, records[k]),
    ensures
        woken_indices(b, records) == woken_indices(a, records),
{
    assert(records.filter(|rec: ObjectId| waiter_live(b, rec)) == records.filter(|rec: ObjectId| waiter_live(a, rec))) by {
        lemma_filter_congruent(records, |rec: ObjectId| waiter_live(b, rec), |rec: ObjectId| waiter_live(a, rec));
    }
    let f = records.filter(|rec: ObjectId| waiter_live(a, rec));
    assert forall|k: int| 0 <= k < f.len() implies waiter_of(b, #[trigger] f[k]) == waiter_of(a, f[k]) by {
        records.lemma_filter_contains_rev(|rec: ObjectId| waiter_live(a, rec), f[k]);
        assert(f.contains(f[k]));
        let j = choose|j: int| 0 <= j < records.len() && records[j] == f[k];
        assert(waiter_of(b, records[j]) == waiter_of(a, records[j]));
    }
    assert(woken_indices(b, records) =~= woken_indices(a, records));
}

/// Completing distinct waiting records keeps the threads waking them
/// would enqueue.
proof fn lemma_woken_stable_after_completion(a: &Nucleus, b: &Nucleus, records: Seq<ObjectId>, state: PendingState)
    requires
        a.wf(),
        all_waiting_distinct(&a.pending, records),
        transitioned_all(a.pending.records(), records, b.pending.records(), state),
        b.pending.generations() == a.pending.generations(),
        b.pools.threads == a.pools.threads,
    ensures
        woken_indices(b, records) == woken_indices(a, records),
{
    assert forall|k: int| 0 <= k < records.len() implies waiter_of(b, #[trigger] records[k]) == waiter_of(a, records[k]) by {
        let s = records[k].index as int;
        assert(names_slot(records, s));
        assert(a.pending.live(records[k]) is Some);
    }
    lemma_woken_indices_stable(a, b, records);
}

/// The records of `awaits` an advance completes: every one when `all`,
/// else those whose target `bound` reaches.
fn awaited_records(awaits: &Vec<(ObjectId, u64)>, all: bool, bound: u64) -> (r: Vec<ObjectId>)
    ensures
        r@ == (if all { ids(awaits@) } else { ids(satisfied(awaits@, bound)) }),
{
    let ghost p = |e: (ObjectId, u64)| e.1 <= bound;
    let mut r: Vec<ObjectId> = Vec::new();
    let mut i: usize = 0;
    while i < awaits.len()
        invariant
            i <= awaits.len(),
            p == (|e: (ObjectId, u64)| e.1 <= bound),
            all ==> r@ == ids(awaits@.subrange(0, i as int)),
            !all ==> r@ == ids(awaits@.subrange(0, i as int).filter(p)),
        decreases awaits.len() - i,
    {
        let (record, target) = awaits[i];
        proof {
            crate::ring::lemma_filter_prefix_step(awaits@, i as int, p);
            assert(awaits@.subrange(0, i as int + 1) =~= awaits@.subrange(0, i as int).push(awaits@[i as int]));
            awaits@.subrange(0, i as int).lemma_push_map_commute(|e: (ObjectId, u64)| e.0, awaits@[i as int]);
            awaits@.subrange(0, i as int).filter(p).lemma_push_map_commute(|e: (ObjectId, u64)| e.0, awaits@[i as int]);
        }
        if all || target <= bound {
            r.push(record);
        }
        i = i + 1;
    }
    proof {
        assert(awaits@.subrange(0, awaits@.len() as int) =~= awaits@);
    }
    r
}

/// Whether `records` are distinct live waiting records (see
/// [`all_waiting_distinct`]).
fn records_waiting_distinct(p: &PendingPool, records: &Vec<ObjectId>) -> (r: bool)
    requires
        p.wf(),
    ensures
        r == all_waiting_distinct(p, records@),
{
    let mut i: usize = 0;
    while i < records.len()
        invariant
            p.wf(),
            i <= records.len(),
            forall|k: int| 0 <= k < i ==> (p.live(#[trigger] records@[k]) matches Some(inv)
                && inv.state == PendingState::Waiting),
            forall|k: int, l: int| 0 <= k < l < i ==> #[trigger] records@[k] != #[trigger] records@[l],
        decreases records.len() - i,
    {
        match p.state(records[i]) {
            Ok(PendingState::Waiting) => {},
            _ => {
                assert(!(p.live(records@[i as int]) matches Some(inv) && inv.state == PendingState::Waiting));
                return false;
            },
        }
        let mut j: usize = 0;
        while j < i
            invariant
                j <= i < records.len(),
                forall|k: int| 0 <= k < j ==> records@[k] != records@[i as int],
            decreases i - j,
        {
            if records[j] == records[i] {
                assert(records@[j as int] == records@[i as int]);
                return false;
            }
            j = j + 1;
        }
        i = i + 1;
    }
    true
}

/// How many of `records`, all live, name a live waiter: the threads
/// waking them enqueues.
fn live_waiter_count(n: &Nucleus, records: &Vec<ObjectId>) -> (r: usize)
    requires
        n.wf(),
        forall|k: int| 0 <= k < records@.len() ==> n.pending.live(#[trigger] records@[k]) is Some,
    ensures
        r == woken_indices(n, records@).len(),
{
    let ghost f = |rec: ObjectId| waiter_live(n, rec);
    let mut count: usize = 0;
    let mut i: usize = 0;
    while i < records.len()
        invariant
            n.wf(),
            i <= records.len(),
            f == (|rec: ObjectId| waiter_live(n, rec)),
            forall|k: int| 0 <= k < records@.len() ==> n.pending.live(#[trigger] records@[k]) is Some,
            count == records@.subrange(0, i as int).filter(f).len(),
            count <= i,
        decreases records.len() - i,
    {
        proof {
            crate::ring::lemma_filter_prefix_step(records@, i as int, f);
        }
        let live = match n.pending.waiter(records[i]) {
            Ok(waiter) => n.pools.threads.validate(waiter).is_ok(),
            Err(_) => false,
        };
        assert(live == waiter_live(n, records@[i as int]));
        if live {
            count = count + 1;
        }
        i = i + 1;
    }
    proof {
        assert(records@.subrange(0, records@.len() as int) =~= records@);
    }
    count
}

/// How many threads `Advance` by `delta` on `id` would make runnable (see
/// [`advance_wakes`]).
pub fn advance_wake_count(n: &Nucleus, id: ObjectId, delta: u64) -> (r: usize)
    requires
        n.wf(),
    ensures
        r == advance_wakes(n, id, delta),
{
    if delta == 0 {
        return 0;
    }
    let event_count = match n.pools.event_counts.validate(id) {
        Err(_) => {
            return 0;
        },
        Ok(ec) => ec,
    };
    let value = event_count.read();
    let overflow = value > u64::MAX - delta;
    let bound = if overflow { 0 } else { value + delta };
    let awaits = event_count.awaits();
    let records = awaited_records(&awaits, overflow, bound);
    assert(records@ == advance_woke(*event_count, delta));
    if !records_waiting_distinct(&n.pending, &records) {
        return 0;
    }
    live_waiter_count(n, &records)
}

/// How many threads an `EventCount` invocation would make runnable (see
/// [`event_count_wakes`]).
pub fn event_count_wake_count(n: &Nucleus, caller: CallerTable, key: RawKey, op: u64, args: &[u64; 6])
    -> (r: usize)
    requires
        n.wf(),
    ensures
        r == event_count_wakes(n, caller, key, op, args@),
{
    if op != 0 {
        return 0;
    }
    let entry = match lookup_typed(n, caller, key, ObjectType::EVENT_COUNT) {
        Ok(e) => e,
        Err(_) => {
            return 0;
        },
    };
    if !entry.rights().has(Rights::SEND) || args[1] != 0 || args[2] != 0 || args[3] != 0 || args[4] != 0
        || args[5] != 0 {
        return 0;
    }
    match entry.object_id() {
        Ok(id) => advance_wake_count(n, id, args[0]),
        Err(_) => 0,
    }
}

/// Handle an `EventCount` invocation (see [`event_count_done`]). The
/// runnable queue must have room for every thread it wakes.
pub fn event_count_invoke(nucleus: &mut Nucleus, caller: CallerTable, key: RawKey, op: u64, args: &[u64; 6])
    -> (r: Result<InvokeOutcome, CapError>)
    requires
        old(nucleus).wf(),
        old(nucleus).scheduler@.len() + event_count_wakes(old(nucleus), caller, key, op, args@) <= Scheduler::CAPACITY,
    ensures
        final(nucleus).wf(),
        event_count_done(old(nucleus), final(nucleus), caller, key, op, args@, r),
{
    if op > 2 {
        return Err(CapError::InvalidOperation);
    }
    let entry = lookup_typed(nucleus, caller, key, ObjectType::EVENT_COUNT)?;
    let id = match entry.object_id() {
        Ok(id) => id,
        Err(e) => {
            return Err(e.with_key_operand(0));
        },
    };
    let rights = entry.rights();
    if op == 0 {
        if !rights.has(Rights::SEND) {
            return Err(CapError::InsufficientRights);
        }
        if args[1] != 0 || args[2] != 0 || args[3] != 0 || args[4] != 0 || args[5] != 0 {
            return Err(CapError::InvalidOperation);
        }
        let advanced = match nucleus.pools.event_counts.validate_mut(id) {
            Err(e) => {
                return Err(e);
            },
            Ok(event_count) => {
                proof {
                    event_count.lemma_bounded();
                }
                event_count.advance(args[0], &mut nucleus.pending)
            },
        };
        let ghost mid = *nucleus;
        match advanced {
            Err(e) => Err(e),
            Ok(AdvanceOutcome::Advanced { new_value, woken }) => {
                let records = woken.iter();
                proof {
                    let ec = old(nucleus).pools.event_counts.live(id).unwrap();
                    crate::ring::lemma_filter_facts(ec.queued(), |e: (ObjectId, u64)| e.1 <= new_value);
                    lemma_completed_records(&old(nucleus).pending, &nucleus.pending, records@, advanced_state(new_value));
                    lemma_woken_stable_after_completion(old(nucleus), nucleus, records@, advanced_state(new_value));
                }
                let _ = wake_all(nucleus, &records);
                proof {
                    lemma_complete_then_wake(old(nucleus), &mid, nucleus, records@, advanced_state(new_value));
                }
                Ok(InvokeOutcome::Complete((new_value, 0)))
            },
            Ok(AdvanceOutcome::Overflow { woken }) => {
                let records = woken.iter();
                proof {
                    lemma_completed_records(&old(nucleus).pending, &nucleus.pending, records@, overflow_state());
                    lemma_woken_stable_after_completion(old(nucleus), nucleus, records@, overflow_state());
                }
                let _ = wake_all(nucleus, &records);
                proof {
                    lemma_complete_then_wake(old(nucleus), &mid, nucleus, records@, overflow_state());
                }
                Err(CapError::CounterOverflow)
            },
        }
    } else if op == 1 {
        if !rights.has(Rights::RECV) {
            return Err(CapError::InsufficientRights);
        }
        if args[2] != 0 || args[3] != 0 || args[4] != 0 || args[5] != 0 {
            return Err(CapError::InvalidOperation);
        }
        if args[1] != u64::MAX {
            return Err(CapError::InvalidOperation);
        }
        let waiter = current_waiter(nucleus)?;
        let r = match nucleus.pools.event_counts.validate_mut(id) {
            Err(e) => Err(e),
            Ok(event_count) => {
                proof {
                    event_count.lemma_bounded();
                }
                match event_count.await_ge(args[0], waiter, &mut nucleus.pending) {
                    Err(e) => Err(e),
                    Ok(AwaitOutcome::Ready(value)) => Ok(InvokeOutcome::Complete((value, 0))),
                    Ok(AwaitOutcome::Blocked(record)) => Ok(InvokeOutcome::Blocked(record)),
                }
            },
        };
        r
    } else {
        if !rights.has(Rights::RECV) {
            return Err(CapError::InsufficientRights);
        }
        if args[0] != 0 || args[1] != 0 || args[2] != 0 || args[3] != 0 || args[4] != 0 || args[5] != 0 {
            return Err(CapError::InvalidOperation);
        }
        match nucleus.pools.event_counts.validate_mut(id) {
            Err(e) => Err(e),
            Ok(event_count) => Ok(InvokeOutcome::Complete((event_count.read(), 0))),
        }
    }
}

} // verus!
