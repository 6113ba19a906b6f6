//! Notification kernel object: a word-sized coalescing signal bitmap with
//! one-consumer waiter delivery.
//!
//! `Signal` ORs bits and wakes at most one waiter, which consumes the
//! delivered bitmap; `Wait` consumes pending bits or blocks until a signal
//! arrives; `Poll` consumes immediately or returns zero. Repeated signals to
//! a bit coalesce.

use vstd::prelude::*;
use crate::access::ObjectId;
use crate::completion::{
    all_waiting_distinct, keeps_record, lemma_transition_extend, lemma_waiting_remains, transitioned_all,
    PendingInvocation, PendingKind, PendingPool, PendingState, WaitQueue,
};
use crate::error::CapError;
use crate::ring::ring_index;
use crate::syscall_status;
use crate::nucleus_object::NucleusObject;

verus! {

/// Outcome of a `Wait` attempt.
#[derive(Clone, Copy, Debug, PartialEq, Eq, Structural)]
pub enum WaitOutcome {
    /// These bits were pending and are consumed; the invocation returns
    /// immediately with them.
    Ready(u64),
    /// No bits pending: the caller blocks on the named pending record.
    Blocked(ObjectId),
}

/// Notification kernel object.
pub struct Notification {
    /// Pending signal bits (coalescing bitmap). Nonzero only while no waiter
    /// is queued.
    state: u64,
    /// Blocked waiters, FIFO, bounded.
    waiters: WaitQueue,
}

impl NucleusObject for Notification {
    open spec fn inv(&self) -> bool {
        self.wf()
    }
}

impl Notification {
    /// The pending bitmap.
    pub closed spec fn bits(&self) -> u64 {
        self.state
    }

    /// The queued record identities, oldest first.
    pub closed spec fn queued(&self) -> Seq<ObjectId> {
        self.waiters@
    }

    /// Consistency: a well-formed queue, and pending bits only while no
    /// waiter is queued.
    pub closed spec fn wf(&self) -> bool {
        &&& self.waiters.wf()
        &&& self.state != 0 ==> self.waiters@.len() == 0
    }

    /// A consistent notification has at most the queue capacity of waiters,
    /// and pending bits only while none is queued.
    pub proof fn lemma_bounded(&self)
        requires
            self.wf(),
        ensures
            self.queued().len() <= WaitQueue::CAPACITY,
            self.bits() != 0 ==> self.queued().len() == 0,
    {
        self.waiters.lemma_bounded();
    }

    /// A fresh notification: no pending bits, no waiters.
    pub fn new() -> (r: Notification)
        ensures
            r.wf(),
            r.bits() == 0,
            r.queued() == Seq::<ObjectId>::empty(),
    {
        Notification { state: 0, waiters: WaitQueue::new() }
    }

    /// Pending bits (diagnostics and tests).
    pub fn pending_bits(&self) -> (r: u64)
        ensures
            r == self.bits(),
    {
        self.state
    }

    /// The front waiter's record, if any: the one the next signal
    /// completes.
    pub fn front_waiter(&self) -> (r: Option<ObjectId>)
        requires
            self.wf(),
        ensures
            r == (if self.queued().len() > 0 { Some(self.queued()[0]) } else { None::<ObjectId> }),
    {
        self.waiters.front()
    }

    /// `Signal`: with no waiter queued, OR `bits` into the pending state.
    /// Otherwise deliver the pending bitmap (ORed with `bits`) to the front
    /// waiter by completing its record with the success status, consuming
    /// the bits, and return that record for the scheduler to resume.
    ///
    /// At most one waiter wakes per signal. If the front record is not a
    /// live `Waiting` record, the pool reports `InvalidOperation` (the record
    /// has already been dequeued and the bits consumed).
    pub fn signal(&mut self, bits: u64, pending: &mut PendingPool) -> (r: Result<Option<ObjectId>, CapError>)
        requires
            old(self).wf(),
            old(pending).wf(),
        ensures
            final(self).wf(),
            final(pending).wf(),
            old(pending).evolves_to(final(pending)),
            old(self).queued().len() == 0 ==> {
                &&& r == Ok::<Option<ObjectId>, CapError>(None)
                &&& final(self).bits() == old(self).bits() | bits
                &&& final(self).queued() == old(self).queued()
                &&& *final(pending) == *old(pending)
            },
            old(self).queued().len() > 0 ==> {
                let record = old(self).queued()[0];
                &&& final(self).bits() == 0
                &&& final(self).queued() == old(self).queued().drop_first()
                &&& match old(pending).live(record) {
                    Some(inv) if inv.state == PendingState::Waiting => {
                        &&& r == Ok::<Option<ObjectId>, CapError>(Some(record))
                        &&& final(pending).records() == old(pending).records().update(record.index as int,
                            Some(PendingInvocation {
                                state: PendingState::Completed {
                                    status: syscall_status::SUCCESS,
                                    result0: old(self).bits() | bits,
                                    result1: 0,
                                },
                                ..inv
                            }))
                        &&& final(pending).generations() == old(pending).generations()
                        &&& final(pending).next_free() == old(pending).next_free()
                    },
                    _ => r == Err::<Option<ObjectId>, CapError>(CapError::InvalidOperation)
                        && *final(pending) == *old(pending),
                }
            },
    {
        match self.waiters.pop_front() {
            Some(record) => {
                let delivered = self.state | bits;
                self.state = 0;
                pending.complete(record, delivered, 0)?;
                Ok(Some(record))
            },
            None => {
                self.state = self.state | bits;
                Ok(None)
            },
        }
    }

    /// `Wait`: consume pending bits immediately if any; otherwise register
    /// the caller's pending record in the queue and report it blocked.
    ///
    /// The queue reservation is validated before the record is registered,
    /// so a full queue rejects the attempt (`PoolExhausted`) with nothing to
    /// roll back; an exhausted record pool rejects it the same way.
    pub fn wait(&mut self, waiter: ObjectId, pending: &mut PendingPool) -> (r: Result<WaitOutcome, CapError>)
        requires
            old(self).wf(),
            old(pending).wf(),
        ensures
            final(self).wf(),
            final(pending).wf(),
            old(pending).evolves_to(final(pending)),
            old(self).bits() != 0 ==> {
                &&& r == Ok::<WaitOutcome, CapError>(WaitOutcome::Ready(old(self).bits()))
                &&& final(self).bits() == 0
                &&& final(self).queued() == old(self).queued()
                &&& *final(pending) == *old(pending)
            },
            old(self).bits() == 0 && old(self).queued().len() == WaitQueue::CAPACITY ==> {
                &&& r == Err::<WaitOutcome, CapError>(CapError::PoolExhausted)
                &&& final(self).bits() == 0
                &&& final(self).queued() == old(self).queued()
                &&& *final(pending) == *old(pending)
            },
            old(self).bits() == 0 && old(self).queued().len() < WaitQueue::CAPACITY ==> {
                &&& final(self).bits() == 0
                &&& match old(pending).next_fit() {
                    None => {
                        &&& r == Err::<WaitOutcome, CapError>(CapError::PoolExhausted)
                        &&& final(self).queued() == old(self).queued()
                        &&& *final(pending) == *old(pending)
                    },
                    Some(s) => {
                        let record = ObjectId {
                            pool: crate::access::PoolTag::Pending,
                            index: s as u16,
                            generation: (old(pending).generations()[s] + 1) as u32,
                        };
                        &&& r == Ok::<WaitOutcome, CapError>(WaitOutcome::Blocked(record))
                        &&& final(self).queued() == old(self).queued().push(record)
                        &&& final(pending).records() == old(pending).records().update(s,
                            Some(PendingInvocation {
                                waiter,
                                kind: PendingKind::NotificationWait,
                                state: PendingState::Waiting,
                            }))
                        &&& final(pending).generations() == old(pending).generations().update(s,
                            (old(pending).generations()[s] + 1) as u32)
                        &&& final(pending).next_free() == ring_index(s, 1, PendingPool::CAPACITY as int)
                    },
                }
            },
    {
        if self.state != 0 {
            let bits = self.state;
            self.state = 0;
            Ok(WaitOutcome::Ready(bits))
        } else {
            if self.waiters.is_full() {
                return Err(CapError::PoolExhausted);
            }
            let record = pending.block(waiter, PendingKind::NotificationWait)?;
            match self.waiters.push(record) {
                Ok(()) => Ok(WaitOutcome::Blocked(record)),
                Err(error) => {
                    pending.abandon(record);
                    Err(error)
                },
            }
        }
    }

    /// `Poll`: consume and return pending bits, or zero when none are
    /// pending. Never blocks.
    pub fn poll(&mut self) -> (r: u64)
        requires
            old(self).wf(),
        ensures
            final(self).wf(),
            r == old(self).bits(),
            final(self).bits() == 0,
            final(self).queued() == old(self).queued(),
    {
        let bits = self.state;
        self.state = 0;
        bits
    }

    /// Object teardown: cancel every queued waiter, in queue order, and
    /// clear the queue. Each record receives its single terminal transition
    /// (`Cancelled`); the waiters resume with a cancellation error.
    ///
    /// Succeeds exactly when the queue holds distinct live `Waiting` records;
    /// otherwise the pool reports `InvalidOperation` for the first offending
    /// record.
    pub fn cancel_waiters(&mut self, pending: &mut PendingPool) -> (r: Result<(), CapError>)
        requires
            old(self).wf(),
            old(pending).wf(),
        ensures
            final(self).wf(),
            final(pending).wf(),
            old(pending).evolves_to(final(pending)),
            final(self).bits() == old(self).bits(),
            r is Ok <==> all_waiting_distinct(old(pending), old(self).queued()),
            r is Err ==> r == Err::<(), CapError>(CapError::InvalidOperation),
            r is Ok ==> {
                &&& final(self).queued() == Seq::<ObjectId>::empty()
                &&& transitioned_all(old(pending).records(), old(self).queued(), final(pending).records(), PendingState::Cancelled)
                &&& final(pending).generations() == old(pending).generations()
                &&& final(pending).next_free() == old(pending).next_free()
            },
    {
        let ghost queued = self.waiters@;
        let ghost p0 = *pending;
        let ghost mut k: int = 0;
        proof {
            crate::completion::lemma_evolves_refl(&p0);
            assert(queued.subrange(0, 0) =~= Seq::<ObjectId>::empty());
            assert(queued.subrange(0, queued.len() as int) =~= queued);
        }
        loop
            invariant
                self.wf(),
                pending.wf(),
                self.state == old(self).state,
                p0 == *old(pending),
                p0.wf(),
                queued == old(self).queued(),
                0 <= k <= queued.len(),
                self.waiters@ == queued.subrange(k, queued.len() as int),
                p0.evolves_to(pending),
                pending.generations() == p0.generations(),
                pending.next_free() == p0.next_free(),
                transitioned_all(p0.records(), queued.subrange(0, k), pending.records(), PendingState::Cancelled),
                all_waiting_distinct(&p0, queued.subrange(0, k)),
            decreases queued.len() - k,
        {
            let ghost before = *pending;
            match self.waiters.pop_front() {
                None => {
                    proof {
                        assert(k == queued.len());
                        assert(queued.subrange(0, k) =~= queued);
                    }
                    return Ok(());
                },
                Some(record) => {
                    assert(record == queued[k]);
                    let res = pending.cancel(record);
                    match res {
                        Ok(()) => {},
                        Err(e) => {
                            proof {
                                if all_waiting_distinct(&p0, queued) {
                                    lemma_waiting_remains(&p0, &before, queued, k, PendingState::Cancelled);
                                }
                            }
                            return Err(e);
                        },
                    }
                    proof {
                        crate::completion::lemma_evolves_trans(&p0, &before, pending);
                        lemma_transition_extend(&p0, &before, pending, queued, k, PendingState::Cancelled);
                        assert(queued.subrange(k + 1, queued.len() as int)
                            =~= queued.subrange(k, queued.len() as int).drop_first());
                        k = k + 1;
                    }
                },
            }
        }
    }

    /// Thread-teardown removal: stop holding the torn-down `waiter`'s queued
    /// records, preserving the FIFO order of the remaining waiters. Returns
    /// how many records were unqueued.
    pub fn remove_waiter(&mut self, waiter: ObjectId, pending: &PendingPool) -> (r: usize)
        requires
            old(self).wf(),
            pending.wf(),
        ensures
            final(self).wf(),
            final(self).bits() == old(self).bits(),
            final(self).queued() == old(self).queued().filter(|x: ObjectId| keeps_record(pending, waiter, x)),
            r == old(self).queued().len() - final(self).queued().len(),
    {
        let r = self.waiters.remove_waiter(waiter, pending);
        proof {
            broadcast use vstd::seq_lib::group_filter_ensures;
        }
        r
    }
}

} // verus!
