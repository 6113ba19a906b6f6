//! `EventCount` kernel object: a monotonic counter with broadcast target
//! waits.
//!
//! An advance completes *every* queued `Await` whose target the new value
//! satisfies; awaiting and reading do not consume the counter.
//!
//! Overflow policy: `Advance` requires a nonzero delta; an advance whose sum
//! would exceed `u64::MAX` leaves the counter unchanged and completes every
//! queued `Await` with the shared `CounterOverflow` status, so waiters
//! observe the producer's failure instead of blocking indefinitely. The
//! counter never wraps and never saturates.

use vstd::prelude::*;
use crate::access::{ObjectId, PoolTag};
use crate::completion::{
    all_waiting_distinct, keeps_record, lemma_evolves_refl, lemma_evolves_trans, lemma_transition_extend,
    lemma_waiting_remains, transitioned_all, PendingInvocation, PendingKind, PendingPool, PendingState,
};
use crate::error::CapError;
use crate::ring::{lemma_filter_prefix_step, lemma_ring_index_injective, ring_index, ring_view};
use crate::syscall_status;
use crate::nucleus_object::NucleusObject;

verus! {

/// The record identities of queued awaits, in queue order.
pub open spec fn ids(q: Seq<(ObjectId, u64)>) -> Seq<ObjectId> {
    q.map_values(|e: (ObjectId, u64)| e.0)
}

/// The queued awaits a counter value satisfies, in queue order.
pub open spec fn satisfied(q: Seq<(ObjectId, u64)>, value: u64) -> Seq<(ObjectId, u64)> {
    q.filter(|e: (ObjectId, u64)| e.1 <= value)
}

/// The queued awaits a counter value does not satisfy, in queue order.
pub open spec fn unsatisfied(q: Seq<(ObjectId, u64)>, value: u64) -> Seq<(ObjectId, u64)> {
    q.filter(|e: (ObjectId, u64)| !(e.1 <= value))
}

/// Bounded FIFO of queued awaits: pending-record identities with their
/// targets, in arrival order.
pub struct AwaitQueue {
    entries: Vec<(ObjectId, u64)>,
    head: usize,
    len: usize,
}

impl AwaitQueue {
    /// Waiters per synchronization object.
    pub const CAPACITY: usize = 8;

    /// The queued awaits, oldest first.
    pub closed spec fn view(&self) -> Seq<(ObjectId, u64)> {
        ring_view(self.entries@, self.head as int, self.len as int, Self::CAPACITY as int)
    }

    /// Internal consistency of the ring.
    pub closed spec fn wf(&self) -> bool {
        &&& self.entries@.len() == Self::CAPACITY
        &&& self.head < Self::CAPACITY
        &&& self.len <= Self::CAPACITY
    }

    /// A consistent queue holds at most its capacity.
    pub proof fn lemma_bounded(&self)
        requires
            self.wf(),
        ensures
            self@.len() <= Self::CAPACITY,
    {
    }

    /// An empty queue.
    pub fn new() -> (r: AwaitQueue)
        ensures
            r.wf(),
            r@ == Seq::<(ObjectId, u64)>::empty(),
    {
        let mut entries: Vec<(ObjectId, u64)> = Vec::new();
        while entries.len() < Self::CAPACITY
            invariant
                entries.len() <= Self::CAPACITY,
            decreases Self::CAPACITY - entries.len(),
        {
            entries.push((ObjectId::vacant(), 0));
        }
        let r = AwaitQueue { entries, head: 0, len: 0 };
        assert(r@ =~= Seq::<(ObjectId, u64)>::empty());
        r
    }

    /// Whether the reservation is exhausted.
    pub fn is_full(&self) -> (r: bool)
        requires
            self.wf(),
        ensures
            r == (self@.len() == Self::CAPACITY),
    {
        self.len == Self::CAPACITY
    }

    /// The queued awaits, oldest first.
    pub fn to_vec(&self) -> (r: Vec<(ObjectId, u64)>)
        requires
            self.wf(),
        ensures
            r@ == self@,
    {
        let mut r: Vec<(ObjectId, u64)> = Vec::new();
        let mut i: usize = 0;
        while i < self.len
            invariant
                self.wf(),
                i <= self.len,
                r@ == self@.subrange(0, i as int),
            decreases self.len - i,
        {
            let slot = (self.head + i) % Self::CAPACITY;
            assert(slot == ring_index(self.head as int, i as int, Self::CAPACITY as int));
            r.push(self.entries[slot]);
            proof {
                assert(r@ =~= self@.subrange(0, i as int + 1));
            }
            i = i + 1;
        }
        assert(r@ =~= self@);
        r
    }

    /// Enqueue an await at the back. Fails with `PoolExhausted`, changing
    /// nothing, when full.
    pub fn push(&mut self, record: ObjectId, target: u64) -> (r: Result<(), CapError>)
        requires
            old(self).wf(),
        ensures
            final(self).wf(),
            old(self)@.len() < Self::CAPACITY ==> r == Ok::<(), CapError>(())
                && final(self)@ == old(self)@.push((record, target)),
            old(self)@.len() == Self::CAPACITY ==> r == Err::<(), CapError>(CapError::PoolExhausted)
                && final(self)@ == old(self)@,
    {
        if self.is_full() {
            return Err(CapError::PoolExhausted);
        }
        let back = (self.head + self.len) % Self::CAPACITY;
        assert(back == ring_index(self.head as int, self.len as int, Self::CAPACITY as int));
        let ghost before = self@;
        self.entries.set(back, (record, target));
        self.len = self.len + 1;
        proof {
            assert forall|i: int| 0 <= i < before.len() implies self@[i] == before[i] by {
                lemma_ring_index_injective(self.head as int, i, (self.len - 1) as int, Self::CAPACITY as int);
            }
            assert(self@ =~= before.push((record, target)));
        }
        Ok(())
    }

    /// Dequeue the front (oldest) await.
    pub fn pop_front(&mut self) -> (r: Option<(ObjectId, u64)>)
        requires
            old(self).wf(),
        ensures
            final(self).wf(),
            old(self)@.len() == 0 ==> r == None::<(ObjectId, u64)> && final(self)@ == old(self)@,
            old(self)@.len() > 0 ==> r == Some(old(self)@[0]) && final(self)@ == old(self)@.drop_first(),
    {
        if self.len == 0 {
            return None;
        }
        let ghost before = self@;
        let entry = self.entries[self.head];
        let old_head = self.head;
        self.entries.set(old_head, (ObjectId::vacant(), 0));
        self.head = (self.head + 1) % Self::CAPACITY;
        self.len = self.len - 1;
        proof {
            assert forall|i: int| 0 <= i < self.len implies self@[i] == before.drop_first()[i] by {
                lemma_ring_index_injective(old_head as int, 0, i + 1, Self::CAPACITY as int);
            }
            assert(self@ =~= before.drop_first());
        }
        Some(entry)
    }

    /// Thread-teardown removal: stop holding every queued await whose live
    /// record belongs to `waiter`, preserving the FIFO order of the rest.
    /// Returns how many awaits were unqueued.
    pub fn remove_waiter(&mut self, waiter: ObjectId, pending: &PendingPool) -> (r: usize)
        requires
            old(self).wf(),
            pending.wf(),
        ensures
            final(self).wf(),
            final(self)@ == old(self)@.filter(|e: (ObjectId, u64)| keeps_record(pending, waiter, e.0)),
            r == old(self)@.len() - final(self)@.len(),
    {
        let ghost before = self@;
        let ghost pred = |e: (ObjectId, u64)| keeps_record(pending, waiter, e.0);
        let live = self.len;
        let mut kept: usize = 0;
        let mut i: usize = 0;
        while i < live
            invariant
                self.wf(),
                pending.wf(),
                self.head == old(self).head,
                self.len == live,
                live == before.len(),
                before == old(self)@,
                0 <= kept <= i <= live,
                pred == (|e: (ObjectId, u64)| keeps_record(pending, waiter, e.0)),
                kept == before.subrange(0, i as int).filter(pred).len(),
                forall|k: int| 0 <= k < kept ==>
                    #[trigger] self.entries@[ring_index(self.head as int, k, Self::CAPACITY as int)]
                        == before.subrange(0, i as int).filter(pred)[k],
                forall|k: int| i <= k < live ==>
                    #[trigger] self.entries@[ring_index(self.head as int, k, Self::CAPACITY as int)]
                        == before[k],
            decreases live - i,
        {
            let slot = (self.head + i) % Self::CAPACITY;
            assert(slot == ring_index(self.head as int, i as int, Self::CAPACITY as int));
            let entry = self.entries[slot];
            assert(entry == before[i as int]);
            proof {
                lemma_filter_prefix_step(before, i as int, pred);
            }
            let blocked_by_waiter = match pending.waiter(entry.0) {
                Ok(blocked) => blocked == waiter,
                Err(_) => false,
            };
            if !blocked_by_waiter {
                let dst = (self.head + kept) % Self::CAPACITY;
                assert(dst == ring_index(self.head as int, kept as int, Self::CAPACITY as int));
                self.entries.set(dst, entry);
                proof {
                    assert forall|k: int| i < k < live implies
                        #[trigger] self.entries@[ring_index(self.head as int, k, Self::CAPACITY as int)] == before[k] by {
                        lemma_ring_index_injective(self.head as int, kept as int, k, Self::CAPACITY as int);
                    }
                    assert forall|k: int| 0 <= k < kept implies
                        #[trigger] self.entries@[ring_index(self.head as int, k, Self::CAPACITY as int)]
                            == before.subrange(0, i as int).filter(pred)[k] by {
                        lemma_ring_index_injective(self.head as int, kept as int, k, Self::CAPACITY as int);
                    }
                }
                kept = kept + 1;
            }
            i = i + 1;
        }
        proof {
            assert(before.subrange(0, live as int) =~= before);
        }
        self.clear_tail(kept, live);
        proof {
            assert(self@ =~= before.filter(pred));
        }
        live - kept
    }

    /// Clear the vacated slots `kept..live` of the ring and shrink the live
    /// region to `kept`, keeping the first `kept` entries.
    fn clear_tail(&mut self, kept: usize, live: usize)
        requires
            old(self).wf(),
            kept <= live <= AwaitQueue::CAPACITY,
        ensures
            final(self).wf(),
            final(self).head == old(self).head,
            final(self).len == kept,
            forall|k: int| 0 <= k < kept ==>
                #[trigger] final(self).entries@[ring_index(final(self).head as int, k, Self::CAPACITY as int)]
                    == old(self).entries@[ring_index(old(self).head as int, k, Self::CAPACITY as int)],
    {
        let mut j: usize = kept;
        while j < live
            invariant
                self.wf(),
                self.head == old(self).head,
                kept <= j <= live,
                live <= Self::CAPACITY,
                forall|k: int| 0 <= k < kept ==>
                    #[trigger] self.entries@[ring_index(self.head as int, k, Self::CAPACITY as int)]
                        == old(self).entries@[ring_index(old(self).head as int, k, Self::CAPACITY as int)],
            decreases live - j,
        {
            let slot = (self.head + j) % Self::CAPACITY;
            assert(slot == ring_index(self.head as int, j as int, Self::CAPACITY as int));
            self.entries.set(slot, (ObjectId::vacant(), 0));
            proof {
                assert forall|k: int| 0 <= k < kept implies
                    #[trigger] self.entries@[ring_index(self.head as int, k, Self::CAPACITY as int)]
                        == old(self).entries@[ring_index(old(self).head as int, k, Self::CAPACITY as int)] by {
                    lemma_ring_index_injective(self.head as int, j as int, k, Self::CAPACITY as int);
                }
            }
            j = j + 1;
        }
        self.len = kept;
    }
}

/// Records completed by one advance, in queue (arrival) order. Bounded by
/// the queue capacity: an advance never wakes more waiters than the
/// per-object reservation holds.
#[derive(Clone, Debug, PartialEq, Eq)]
pub struct WokenRecords {
    records: Vec<ObjectId>,
}

impl WokenRecords {
    /// The completed records, in order.
    pub closed spec fn view(&self) -> Seq<ObjectId> {
        self.records@
    }

    /// No records.
    pub fn empty() -> (r: WokenRecords)
        ensures
            r@ == Seq::<ObjectId>::empty(),
    {
        WokenRecords { records: Vec::new() }
    }

    /// Append a completed record.
    pub fn push(&mut self, record: ObjectId)
        requires
            old(self)@.len() < AwaitQueue::CAPACITY,
        ensures
            final(self)@ == old(self)@.push(record),
    {
        self.records.push(record);
    }

    /// The completed records, in queue order.
    pub fn iter(&self) -> (r: Vec<ObjectId>)
        ensures
            r@ == self@,
    {
        self.records.clone()
    }
}

/// Outcome of an `Advance` attempt.
#[derive(Clone, Debug, PartialEq, Eq)]
pub enum AdvanceOutcome {
    /// The counter advanced to `new_value`; `woken` names every satisfied
    /// waiter completed with the new value, in queue order.
    Advanced { new_value: u64, woken: WokenRecords },
    /// The advance overflowed: the counter is unchanged, and every queued
    /// waiter was completed with the `CounterOverflow` status.
    Overflow { woken: WokenRecords },
}

/// Outcome of an `Await` attempt.
#[derive(Clone, Copy, Debug, PartialEq, Eq, Structural)]
pub enum AwaitOutcome {
    /// The current value meets the target and is returned immediately.
    Ready(u64),
    /// The target is not met: the caller blocks on the named record.
    Blocked(ObjectId),
}

/// `EventCount` kernel object.
pub struct EventCount {
    /// The monotonic counter. Never wraps, never saturates.
    value: u64,
    /// Blocked awaits, FIFO, bounded.
    waiters: AwaitQueue,
}

/// The completion an advance delivers to a satisfied waiter.
pub open spec fn advanced_state(new_value: u64) -> PendingState {
    PendingState::Completed { status: syscall_status::SUCCESS, result0: new_value, result1: 0 }
}

/// The completion an overflowing advance delivers to every waiter.
pub open spec fn overflow_state() -> PendingState {
    PendingState::Completed { status: syscall_status::COUNTER_OVERFLOW, result0: 0, result1: 0 }
}

/// Filtering a prefix yields a prefix of the filtered sequence.
proof fn lemma_filter_prefix_is_prefix<A>(q: Seq<A>, i: int, p: spec_fn(A) -> bool)
    requires
        0 <= i <= q.len(),
    ensures
        q.filter(p) == q.subrange(0, i).filter(p) + q.subrange(i, q.len() as int).filter(p),
        q.subrange(0, i).filter(p).len() <= q.filter(p).len(),
        q.filter(p).subrange(0, q.subrange(0, i).filter(p).len() as int) == q.subrange(0, i).filter(p),
{
    assert(q =~= q.subrange(0, i) + q.subrange(i, q.len() as int));
    Seq::filter_distributes_over_add(q.subrange(0, i), q.subrange(i, q.len() as int), p);
    assert(q.filter(p).subrange(0, q.subrange(0, i).filter(p).len() as int)
        =~= q.subrange(0, i).filter(p));
}

impl NucleusObject for EventCount {
    open spec fn inv(&self) -> bool {
        self.wf()
    }
}

impl EventCount {
    /// The counter value.
    pub closed spec fn spec_value(&self) -> u64 {
        self.value
    }

    /// The queued awaits, oldest first.
    pub closed spec fn queued(&self) -> Seq<(ObjectId, u64)> {
        self.waiters@
    }

    /// Internal consistency.
    pub closed spec fn wf(&self) -> bool {
        self.waiters.wf()
    }

    /// A consistent counter has at most the queue capacity of waiters.
    pub proof fn lemma_bounded(&self)
        requires
            self.wf(),
        ensures
            self.queued().len() <= AwaitQueue::CAPACITY,
    {
        self.waiters.lemma_bounded();
    }

    /// A fresh counter at zero with no waiters.
    pub fn new() -> (r: EventCount)
        ensures
            r.wf(),
            r.spec_value() == 0,
            r.queued() == Seq::<(ObjectId, u64)>::empty(),
    {
        EventCount { value: 0, waiters: AwaitQueue::new() }
    }

    /// The current counter value (the `Read` operation).
    pub fn read(&self) -> (r: u64)
        ensures
            r == self.spec_value(),
    {
        self.value
    }

    /// The queued awaits, oldest first, with their targets.
    pub fn awaits(&self) -> (r: Vec<(ObjectId, u64)>)
        requires
            self.wf(),
        ensures
            r@ == self.queued(),
    {
        self.waiters.to_vec()
    }

    /// `Advance`: add a nonzero delta, completing every queued `Await` whose
    /// target the new value satisfies (each delivered the new value with the
    /// success status), in queue order; unsatisfied awaits stay queued in
    /// order.
    ///
    /// Zero is invalid. An advance that would exceed `u64::MAX` leaves the
    /// counter unchanged and completes every queued await with the
    /// `CounterOverflow` status. Completion succeeds exactly when the records
    /// to complete are distinct live `Waiting` records; otherwise the pool's
    /// `InvalidOperation` is reported.
    pub fn advance(&mut self, delta: u64, pending: &mut PendingPool) -> (r: Result<AdvanceOutcome, CapError>)
        requires
            old(self).wf(),
            old(pending).wf(),
        ensures
            final(self).wf(),
            final(pending).wf(),
            old(pending).evolves_to(final(pending)),
            r is Err ==> r == Err::<AdvanceOutcome, CapError>(CapError::InvalidOperation),
            delta == 0 ==> r is Err && final(self).spec_value() == old(self).spec_value()
                && final(self).queued() == old(self).queued() && *final(pending) == *old(pending),
            delta != 0 && old(self).spec_value() + delta > u64::MAX ==> {
                let all = ids(old(self).queued());
                &&& final(self).spec_value() == old(self).spec_value()
                &&& (r is Ok <==> all_waiting_distinct(old(pending), all))
                &&& r is Ok ==> {
                    &&& r matches Ok(AdvanceOutcome::Overflow { woken }) && woken@ == all
                    &&& final(self).queued() == Seq::<(ObjectId, u64)>::empty()
                    &&& transitioned_all(old(pending).records(), all, final(pending).records(), overflow_state())
                    &&& final(pending).generations() == old(pending).generations()
                    &&& final(pending).next_free() == old(pending).next_free()
                }
            },
            delta != 0 && old(self).spec_value() + delta <= u64::MAX ==> {
                let nv = (old(self).spec_value() + delta) as u64;
                let woke = ids(satisfied(old(self).queued(), nv));
                &&& final(self).spec_value() == nv
                &&& (r is Ok <==> all_waiting_distinct(old(pending), woke))
                &&& r is Ok ==> {
                    &&& r matches Ok(AdvanceOutcome::Advanced { new_value, woken })
                        && new_value == nv && woken@ == woke
                    &&& final(self).queued() == unsatisfied(old(self).queued(), nv)
                    &&& transitioned_all(old(pending).records(), woke, final(pending).records(), advanced_state(nv))
                    &&& final(pending).generations() == old(pending).generations()
                    &&& final(pending).next_free() == old(pending).next_free()
                }
            },
    {
        proof {
            lemma_evolves_refl(pending);
        }
        if delta == 0 {
            return Err(CapError::InvalidOperation);
        }
        let new_value = match self.value.checked_add(delta) {
            Some(v) => v,
            None => {
                return self.drain_overflow(pending);
            },
        };
        self.value = new_value;

        let ghost q = self.waiters@;
        let ghost p0 = *pending;
        let ghost sat = |e: (ObjectId, u64)| e.1 <= new_value;
        let ghost unsat = |e: (ObjectId, u64)| !(e.1 <= new_value);
        let ghost full = ids(q.filter(sat));
        let ghost st = advanced_state(new_value);
        let live = self.waiters.len;
        let mut woken = WokenRecords::empty();
        let mut kept: usize = 0;
        let mut i: usize = 0;
        proof {
            assert(q.subrange(0, 0) =~= Seq::<(ObjectId, u64)>::empty());
            assert(q.subrange(0, 0).filter(sat) =~= Seq::<(ObjectId, u64)>::empty()) by {
                reveal(Seq::filter);
            }
            assert(q.subrange(0, 0).filter(unsat) =~= Seq::<(ObjectId, u64)>::empty()) by {
                reveal(Seq::filter);
            }
            assert(full.subrange(0, 0) =~= Seq::<ObjectId>::empty());
        }
        while i < live
            invariant
                self.waiters.wf(),
                pending.wf(),
                p0.wf(),
                p0 == *old(pending),
                self.value == new_value,
                new_value == old(self).value + delta,
                delta != 0,
                self.waiters.head == old(self).waiters.head,
                self.waiters.len == live,
                live == q.len(),
                q == old(self).waiters@,
                sat == (|e: (ObjectId, u64)| e.1 <= new_value),
                unsat == (|e: (ObjectId, u64)| !(e.1 <= new_value)),
                full == ids(q.filter(sat)),
                st == advanced_state(new_value),
                0 <= kept <= i <= live,
                kept == q.subrange(0, i as int).filter(unsat).len(),
                woken@ == ids(q.subrange(0, i as int).filter(sat)),
                woken@.len() <= full.len(),
                woken@ == full.subrange(0, woken@.len() as int),
                woken@.len() + kept == i,
                forall|k: int| 0 <= k < kept ==>
                    #[trigger] self.waiters.entries@[ring_index(self.waiters.head as int, k, AwaitQueue::CAPACITY as int)]
                        == q.subrange(0, i as int).filter(unsat)[k],
                forall|k: int| i <= k < live ==>
                    #[trigger] self.waiters.entries@[ring_index(self.waiters.head as int, k, AwaitQueue::CAPACITY as int)]
                        == q[k],
                p0.evolves_to(pending),
                pending.generations() == p0.generations(),
                pending.next_free() == p0.next_free(),
                transitioned_all(p0.records(), woken@, pending.records(), st),
                all_waiting_distinct(&p0, woken@),
            decreases live - i,
        {
            let slot = (self.waiters.head + i) % AwaitQueue::CAPACITY;
            assert(slot == ring_index(self.waiters.head as int, i as int, AwaitQueue::CAPACITY as int));
            let (record, target) = self.waiters.entries[slot];
            assert((record, target) == q[i as int]);
            proof {
                lemma_filter_prefix_step(q, i as int, sat);
                lemma_filter_prefix_step(q, i as int, unsat);
                lemma_filter_prefix_is_prefix(q, i as int + 1, sat);
                lemma_filter_prefix_is_prefix(q, i as int, sat);
            }
            if target <= new_value {
                let ghost before = *pending;
                let ghost k = woken@.len() as int;
                proof {
                    assert(ids(q.subrange(0, i as int + 1).filter(sat))
                        =~= ids(q.subrange(0, i as int).filter(sat)).push(record));
                    assert(q.filter(sat).subrange(0, k + 1) == q.subrange(0, i as int + 1).filter(sat));
                    assert(full[k] == ids(q.filter(sat).subrange(0, k + 1))[k]);
                    assert(full[k] == record);
                    assert(full.subrange(0, k + 1) =~= ids(q.subrange(0, i as int + 1).filter(sat)));
                    assert(full.subrange(0, k) =~= woken@);
                }
                let res = pending.complete_with_status(record, syscall_status::SUCCESS, new_value, 0);
                match res {
                    Ok(()) => {},
                    Err(e) => {
                        proof {
                            if all_waiting_distinct(&p0, full) {
                                lemma_waiting_remains(&p0, &before, full, k, st);
                            }
                        }
                        return Err(e);
                    },
                }
                proof {
                    lemma_evolves_trans(&p0, &before, pending);
                    lemma_transition_extend(&p0, &before, pending, full, k, st);
                }
                woken.push(record);
            } else {
                let dst = (self.waiters.head + kept) % AwaitQueue::CAPACITY;
                assert(dst == ring_index(self.waiters.head as int, kept as int, AwaitQueue::CAPACITY as int));
                self.waiters.entries.set(dst, (record, target));
                proof {
                    assert forall|k: int| i < k < live implies
                        #[trigger] self.waiters.entries@[ring_index(self.waiters.head as int, k, AwaitQueue::CAPACITY as int)]
                            == q[k] by {
                        lemma_ring_index_injective(self.waiters.head as int, kept as int, k, AwaitQueue::CAPACITY as int);
                    }
                    assert forall|k: int| 0 <= k < kept implies
                        #[trigger] self.waiters.entries@[ring_index(self.waiters.head as int, k, AwaitQueue::CAPACITY as int)]
                            == q.subrange(0, i as int).filter(unsat)[k] by {
                        lemma_ring_index_injective(self.waiters.head as int, kept as int, k, AwaitQueue::CAPACITY as int);
                    }
                    assert(ids(q.subrange(0, i as int + 1).filter(sat)) =~= ids(q.subrange(0, i as int).filter(sat)));
                }
                kept = kept + 1;
            }
            i = i + 1;
        }
        proof {
            assert(q.subrange(0, live as int) =~= q);
            assert(full.subrange(0, full.len() as int) =~= full);
        }
        self.waiters.clear_tail(kept, live);
        proof {
            assert(self.waiters@ =~= q.filter(unsat));
        }
        Ok(AdvanceOutcome::Advanced { new_value, woken })
    }

    /// The overflow drain of `advance`: complete every queued await with the
    /// `CounterOverflow` status, in queue order, emptying the queue.
    fn drain_overflow(&mut self, pending: &mut PendingPool) -> (r: Result<AdvanceOutcome, CapError>)
        requires
            old(self).wf(),
            old(pending).wf(),
        ensures
            final(self).wf(),
            final(pending).wf(),
            old(pending).evolves_to(final(pending)),
            final(self).spec_value() == old(self).spec_value(),
            r is Err ==> r == Err::<AdvanceOutcome, CapError>(CapError::InvalidOperation),
            (r is Ok <==> all_waiting_distinct(old(pending), ids(old(self).queued()))),
            r is Ok ==> {
                &&& r matches Ok(AdvanceOutcome::Overflow { woken }) && woken@ == ids(old(self).queued())
                &&& final(self).queued() == Seq::<(ObjectId, u64)>::empty()
                &&& transitioned_all(old(pending).records(), ids(old(self).queued()),
                    final(pending).records(), overflow_state())
                &&& final(pending).generations() == old(pending).generations()
                &&& final(pending).next_free() == old(pending).next_free()
            },
    {
        let ghost q = self.waiters@;
        let ghost full = ids(q);
        let ghost p0 = *pending;
        let ghost st = overflow_state();
        let mut woken = WokenRecords::empty();
        proof {
            lemma_evolves_refl(&p0);
            assert(full.subrange(0, 0) =~= Seq::<ObjectId>::empty());
        }
        loop
            invariant
                self.wf(),
                pending.wf(),
                p0.wf(),
                p0 == *old(pending),
                self.value == old(self).value,
                q == old(self).waiters@,
                full == ids(q),
                st == overflow_state(),
                woken@.len() <= q.len(),
                q.len() <= AwaitQueue::CAPACITY,
                self.waiters@ == q.subrange(woken@.len() as int, q.len() as int),
                woken@ == full.subrange(0, woken@.len() as int),
                p0.evolves_to(pending),
                pending.generations() == p0.generations(),
                pending.next_free() == p0.next_free(),
                transitioned_all(p0.records(), woken@, pending.records(), st),
                all_waiting_distinct(&p0, woken@),
            decreases q.len() - woken@.len(),
        {
            let ghost before = *pending;
            let ghost k = woken@.len() as int;
            match self.waiters.pop_front() {
                None => {
                    proof {
                        assert(full.subrange(0, full.len() as int) =~= full);
                    }
                    return Ok(AdvanceOutcome::Overflow { woken });
                },
                Some((record, _target)) => {
                    assert(record == full[k]);
                    let res = pending.complete_with_status(record, syscall_status::COUNTER_OVERFLOW, 0, 0);
                    match res {
                        Ok(()) => {},
                        Err(e) => {
                            proof {
                                if all_waiting_distinct(&p0, full) {
                                    lemma_waiting_remains(&p0, &before, full, k, st);
                                }
                            }
                            return Err(e);
                        },
                    }
                    proof {
                        lemma_evolves_trans(&p0, &before, pending);
                        lemma_transition_extend(&p0, &before, pending, full, k, st);
                        assert(full.subrange(0, k + 1) =~= woken@.push(record));
                        assert(q.subrange(k + 1, q.len() as int) =~= q.subrange(k, q.len() as int).drop_first());
                    }
                    woken.push(record);
                },
            }
        }
    }

    /// `Await`: return the current value immediately when it already meets
    /// `target`; otherwise register the caller's pending record (with its
    /// target) at the back of the queue and report the caller blocked.
    ///
    /// A full queue, or an exhausted record pool, rejects the attempt with
    /// `PoolExhausted` before admission.
    pub fn await_ge(&mut self, target: u64, waiter: ObjectId, pending: &mut PendingPool)
        -> (r: Result<AwaitOutcome, CapError>)
        requires
            old(self).wf(),
            old(pending).wf(),
        ensures
            final(self).wf(),
            final(pending).wf(),
            old(pending).evolves_to(final(pending)),
            final(self).spec_value() == old(self).spec_value(),
            old(self).spec_value() >= target ==> {
                &&& r == Ok::<AwaitOutcome, CapError>(AwaitOutcome::Ready(old(self).spec_value()))
                &&& final(self).queued() == old(self).queued()
                &&& *final(pending) == *old(pending)
            },
            old(self).spec_value() < target && old(self).queued().len() == AwaitQueue::CAPACITY ==> {
                &&& r == Err::<AwaitOutcome, CapError>(CapError::PoolExhausted)
                &&& final(self).queued() == old(self).queued()
                &&& *final(pending) == *old(pending)
            },
            old(self).spec_value() < target && old(self).queued().len() < AwaitQueue::CAPACITY ==> {
                match old(pending).next_fit() {
                    None => {
                        &&& r == Err::<AwaitOutcome, CapError>(CapError::PoolExhausted)
                        &&& final(self).queued() == old(self).queued()
                        &&& *final(pending) == *old(pending)
                    },
                    Some(s) => {
                        let record = ObjectId {
                            pool: PoolTag::Pending,
                            index: s as u16,
                            generation: (old(pending).generations()[s] + 1) as u32,
                        };
                        &&& r == Ok::<AwaitOutcome, CapError>(AwaitOutcome::Blocked(record))
                        &&& final(self).queued() == old(self).queued().push((record, target))
                        &&& final(pending).records() == old(pending).records().update(s,
                            Some(PendingInvocation {
                                waiter,
                                kind: PendingKind::EventCountAwait,
                                state: PendingState::Waiting,
                            }))
                        &&& final(pending).generations() == old(pending).generations().update(s,
                            (old(pending).generations()[s] + 1) as u32)
                        &&& final(pending).next_free() == ring_index(s, 1, PendingPool::CAPACITY as int)
                    },
                }
            },
    {
        proof {
            lemma_evolves_refl(pending);
        }
        if self.value >= target {
            return Ok(AwaitOutcome::Ready(self.value));
        }
        if self.waiters.is_full() {
            return Err(CapError::PoolExhausted);
        }
        let record = pending.block(waiter, PendingKind::EventCountAwait)?;
        match self.waiters.push(record, target) {
            Ok(()) => Ok(AwaitOutcome::Blocked(record)),
            Err(error) => {
                pending.abandon(record);
                Err(error)
            },
        }
    }

    /// Object teardown: cancel every queued await, in queue order, and clear
    /// the queue. Succeeds exactly when the queue holds distinct live
    /// `Waiting` records.
    pub fn cancel_waiters(&mut self, pending: &mut PendingPool) -> (r: Result<(), CapError>)
        requires
            old(self).wf(),
            old(pending).wf(),
        ensures
            final(self).wf(),
            final(pending).wf(),
            old(pending).evolves_to(final(pending)),
            final(self).spec_value() == old(self).spec_value(),
            r is Ok <==> all_waiting_distinct(old(pending), ids(old(self).queued())),
            r is Err ==> r == Err::<(), CapError>(CapError::InvalidOperation),
            r is Ok ==> {
                &&& final(self).queued() == Seq::<(ObjectId, u64)>::empty()
                &&& transitioned_all(old(pending).records(), ids(old(self).queued()),
                    final(pending).records(), PendingState::Cancelled)
                &&& final(pending).generations() == old(pending).generations()
                &&& final(pending).next_free() == old(pending).next_free()
            },
    {
        let ghost q = self.waiters@;
        let ghost full = ids(q);
        let ghost p0 = *pending;
        let ghost mut k: int = 0;
        proof {
            lemma_evolves_refl(&p0);
            assert(full.subrange(0, 0) =~= Seq::<ObjectId>::empty());
            assert(q.subrange(0, q.len() as int) =~= q);
        }
        loop
            invariant
                self.wf(),
                pending.wf(),
                p0.wf(),
                p0 == *old(pending),
                self.value == old(self).value,
                q == old(self).waiters@,
                full == ids(q),
                0 <= k <= q.len(),
                self.waiters@ == q.subrange(k, q.len() as int),
                p0.evolves_to(pending),
                pending.generations() == p0.generations(),
                pending.next_free() == p0.next_free(),
                transitioned_all(p0.records(), full.subrange(0, k), pending.records(), PendingState::Cancelled),
                all_waiting_distinct(&p0, full.subrange(0, k)),
            decreases q.len() - k,
        {
            let ghost before = *pending;
            match self.waiters.pop_front() {
                None => {
                    proof {
                        assert(full.subrange(0, k) =~= full);
                    }
                    return Ok(());
                },
                Some((record, _target)) => {
                    assert(record == full[k]);
                    let res = pending.cancel(record);
                    match res {
                        Ok(()) => {},
                        Err(e) => {
                            proof {
                                if all_waiting_distinct(&p0, full) {
                                    lemma_waiting_remains(&p0, &before, full, k, PendingState::Cancelled);
                                }
                            }
                            return Err(e);
                        },
                    }
                    proof {
                        lemma_evolves_trans(&p0, &before, pending);
                        lemma_transition_extend(&p0, &before, pending, full, k, PendingState::Cancelled);
                        assert(q.subrange(k + 1, q.len() as int) =~= q.subrange(k, q.len() as int).drop_first());
                        k = k + 1;
                    }
                },
            }
        }
    }

    /// Thread-teardown removal: stop holding the torn-down `waiter`'s queued
    /// awaits, preserving the FIFO order of the rest. Returns how many awaits
    /// were unqueued.
    pub fn remove_waiter(&mut self, waiter: ObjectId, pending: &PendingPool) -> (r: usize)
        requires
            old(self).wf(),
            pending.wf(),
        ensures
            final(self).wf(),
            final(self).spec_value() == old(self).spec_value(),
            final(self).queued() == old(self).queued().filter(|e: (ObjectId, u64)| keeps_record(pending, waiter, e.0)),
            r == old(self).queued().len() - final(self).queued().len(),
    {
        self.waiters.remove_waiter(waiter, pending)
    }
}

} // verus!
