//! Completion foundation: pending-invocation records and bounded wait queues.
//!
//! A blocking invocation does not return until completion or cancellation.
//! While a caller is blocked, its invocation is represented by a
//! pending-invocation record. Record identities are checked `ObjectId`s
//! (pool tag + slot + non-wrapping generation), so stale identities cannot
//! resolve after release and reuse.
//!
//! Terminal-transition rule: reply, timeout, cancellation and teardown
//! compete for exactly one terminal transition of a record; the losers
//! observe a defined error instead of mutating it.

use vstd::prelude::*;
use crate::access::{ObjectId, PoolTag};
use crate::error::CapError;
use crate::ring::{lemma_filter_prefix_step, lemma_ring_index_injective, ring_index, ring_view};
use crate::syscall_status;

verus! {

/// What a blocked invocation is waiting on.
#[derive(Clone, Copy, Debug, PartialEq, Eq, Structural)]
pub enum PendingKind {
    /// `Notification.Wait`: completion delivers the consumed signal bitmap.
    NotificationWait,
    /// `EventCount.Await`: completion delivers the advanced counter value.
    EventCountAwait,
}

/// State of a pending invocation. `Waiting` is the only non-terminal state.
#[derive(Clone, Copy, Debug, PartialEq, Eq, Structural)]
pub enum PendingState {
    /// Blocked; waiting for its terminal transition.
    Waiting,
    /// Completed: the eventual status and result words are stored.
    Completed { status: u64, result0: u64, result1: u64 },
    /// Cancelled before commit (object teardown).
    Cancelled,
}

/// One blocked invocation: the waiter's checked identity, the wait kind, and
/// the terminal state machine.
#[derive(Clone, Copy, Debug, PartialEq, Eq, Structural)]
pub struct PendingInvocation {
    /// The blocked thread (validated against its pool at wake time).
    pub waiter: ObjectId,
    /// What the invocation waits on.
    pub kind: PendingKind,
    /// The terminal state machine state.
    pub state: PendingState,
}

impl PendingInvocation {
    /// The blocked thread's identity.
    pub fn waiter(&self) -> (r: ObjectId)
        ensures
            r == self.waiter,
    {
        self.waiter
    }

    /// What the invocation waits on.
    pub fn kind(&self) -> (r: PendingKind)
        ensures
            r == self.kind,
    {
        self.kind
    }

    /// The terminal state machine state.
    pub fn state(&self) -> (r: PendingState)
        ensures
            r == self.state,
    {
        self.state
    }
}

/// Bounded pool of pending-invocation records.
///
/// The capacity is the wait-resource reservation, so blocking cannot
/// allocate unbounded kernel memory. Generations are retained after release
/// and never wrap.
pub struct PendingPool {
    records: Vec<Option<PendingInvocation>>,
    /// Retained per-slot allocation generations; the first live generation
    /// of a slot is 1. A slot at `u32::MAX` is exhausted and never reused.
    generations: Vec<u32>,
    /// Next-fit cursor: the slot to start scanning from on the next
    /// registration.
    next_free: usize,
}

/// Whether `r` is a live record of `waiter`.
pub open spec fn record_of(r: Option<PendingInvocation>, waiter: ObjectId) -> bool {
    r matches Some(inv) && inv.waiter == waiter
}

impl PendingPool {
    /// Bounded reservation for simultaneously blocked invocations.
    pub const CAPACITY: usize = 32;

    pub closed spec fn records(&self) -> Seq<Option<PendingInvocation>> {
        self.records@
    }

    pub closed spec fn generations(&self) -> Seq<u32> {
        self.generations@
    }

    pub closed spec fn next_free(&self) -> int {
        self.next_free as int
    }

    /// Internal consistency: full-length arrays, cursor in range, and every
    /// live record carries a generation of at least one.
    pub open spec fn wf(&self) -> bool {
        &&& self.records().len() == Self::CAPACITY
        &&& self.generations().len() == Self::CAPACITY
        &&& 0 <= self.next_free() < Self::CAPACITY
        &&& forall|s: int| 0 <= s < Self::CAPACITY && (#[trigger] self.records()[s]) is Some
            ==> self.generations()[s] >= 1
    }

    /// The live record an identity names, if any.
    pub open spec fn live(&self, id: ObjectId) -> Option<PendingInvocation> {
        if id.pool == PoolTag::Pending && (id.index as int) < Self::CAPACITY
            && self.records()[id.index as int] is Some
            && self.generations()[id.index as int] == id.generation {
            self.records()[id.index as int]
        } else {
            None
        }
    }

    /// Whether slot `s` can take a new registration.
    pub open spec fn slot_free(&self, s: int) -> bool {
        self.records()[s] is None && self.generations()[s] != u32::MAX
    }

    /// The first registrable slot at or after cursor offset `k`, scanning
    /// forward from the cursor and wrapping around the pool.
    pub open spec fn first_free_from(&self, k: int) -> Option<int>
        decreases Self::CAPACITY - k,
    {
        if k < 0 || k >= Self::CAPACITY {
            None
        } else {
            let s = ring_index(self.next_free(), k, Self::CAPACITY as int);
            if self.slot_free(s) { Some(s) } else { self.first_free_from(k + 1) }
        }
    }

    /// The slot the next registration takes, if any (next-fit).
    pub open spec fn next_fit(&self) -> Option<int> {
        self.first_free_from(0)
    }

    /// Number of live records.
    pub open spec fn spec_len(&self) -> nat {
        self.records().filter(|r: Option<PendingInvocation>| r is Some).len()
    }

    /// Slots are only ever refilled with a fresh generation, and generations
    /// never decrease: the history relation every operation obeys.
    pub open spec fn evolves_to(&self, new: &PendingPool) -> bool {
        &&& new.generations().len() == self.generations().len()
        &&& forall|s: int| 0 <= s < self.generations().len() ==>
            #[trigger] new.generations()[s] >= self.generations()[s]
        &&& forall|s: int| 0 <= s < self.generations().len()
            && (#[trigger] new.records()[s]) is Some && self.records()[s] is None
            ==> new.generations()[s] > self.generations()[s]
        &&& forall|s: int| 0 <= s < self.generations().len()
            && (#[trigger] new.records()[s]) is Some && self.records()[s] is Some
            && new.generations()[s] == self.generations()[s]
            ==> new.records()[s].unwrap().waiter == self.records()[s].unwrap().waiter
                && new.records()[s].unwrap().kind == self.records()[s].unwrap().kind
    }

    /// An empty pool: no live records, every generation zero.
    pub fn new() -> (r: PendingPool)
        ensures
            r.wf(),
            r.next_free() == 0,
            forall|s: int| 0 <= s < Self::CAPACITY ==> #[trigger] r.records()[s] is None
                && r.generations()[s] == 0,
    {
        let mut records: Vec<Option<PendingInvocation>> = Vec::new();
        let mut generations: Vec<u32> = Vec::new();
        while records.len() < Self::CAPACITY
            invariant
                records.len() == generations.len(),
                records.len() <= Self::CAPACITY,
                forall|s: int| 0 <= s < records.len() ==> #[trigger] records@[s] is None
                    && generations@[s] == 0,
            decreases Self::CAPACITY - records.len(),
        {
            records.push(None);
            generations.push(0);
        }
        PendingPool { records, generations, next_free: 0 }
    }

    /// Number of live records.
    pub fn len(&self) -> (r: usize)
        requires
            self.wf(),
        ensures
            r == self.spec_len(),
    {
        let ghost pred = |r: Option<PendingInvocation>| r is Some;
        let mut count: usize = 0;
        let mut i: usize = 0;
        while i < Self::CAPACITY
            invariant
                self.wf(),
                i <= Self::CAPACITY,
                pred == (|r: Option<PendingInvocation>| r is Some),
                count == self.records().subrange(0, i as int).filter(pred).len(),
                count <= i,
            decreases Self::CAPACITY - i,
        {
            proof {
                lemma_filter_prefix_step(self.records(), i as int, pred);
            }
            if self.records[i].is_some() {
                count = count + 1;
            }
            i = i + 1;
        }
        proof {
            assert(self.records().subrange(0, Self::CAPACITY as int) =~= self.records());
        }
        count
    }

    /// Whether no record is live.
    pub fn is_empty(&self) -> (r: bool)
        requires
            self.wf(),
        ensures
            r == (self.spec_len() == 0),
    {
        self.len() == 0
    }

    proof fn lemma_first_free_step(&self, k: int)
        requires
            0 <= k < Self::CAPACITY,
        ensures
            self.first_free_from(k) == if self.slot_free(ring_index(self.next_free(), k, Self::CAPACITY as int)) {
                Some(ring_index(self.next_free(), k, Self::CAPACITY as int))
            } else {
                self.first_free_from(k + 1)
            },
    {
    }

    /// The slot a scan from cursor offset `k` finds can take a registration.
    pub proof fn lemma_first_free_sound(&self, k: int)
        requires
            self.wf(),
        ensures
            self.first_free_from(k) matches Some(s) ==> 0 <= s < Self::CAPACITY && self.slot_free(s),
        decreases Self::CAPACITY - k,
    {
        if 0 <= k < Self::CAPACITY {
            self.lemma_first_free_sound(k + 1);
        }
    }

    /// Register a blocked invocation, returning the new record's identity.
    ///
    /// Takes the next-fit slot (the first slot at or after the cursor, with
    /// wrap-around, that is vacant and not generation-exhausted), advances
    /// its generation and stores a `Waiting` record. Fails with
    /// `PoolExhausted`, changing nothing, when no slot qualifies.
    pub fn block(&mut self, waiter: ObjectId, kind: PendingKind) -> (r: Result<ObjectId, CapError>)
        requires
            old(self).wf(),
        ensures
            final(self).wf(),
            old(self).evolves_to(final(self)),
            match old(self).next_fit() {
                None => r == Err::<ObjectId, CapError>(CapError::PoolExhausted) && *final(self) == *old(self),
                Some(s) => {
                    &&& r == Ok::<ObjectId, CapError>(ObjectId {
                        pool: PoolTag::Pending,
                        index: s as u16,
                        generation: (old(self).generations()[s] + 1) as u32,
                    })
                    &&& final(self).records() == old(self).records().update(s,
                        Some(PendingInvocation { waiter, kind, state: PendingState::Waiting }))
                    &&& final(self).generations() == old(self).generations().update(s,
                        (old(self).generations()[s] + 1) as u32)
                    &&& final(self).next_free() == ring_index(s, 1, Self::CAPACITY as int)
                },
            },
    {
        let mut i: usize = 0;
        let mut found: Option<usize> = None;
        while i < Self::CAPACITY
            invariant_except_break
                self.wf(),
                i <= Self::CAPACITY,
                found is None,
                self.next_fit() == self.first_free_from(i as int),
            invariant
                self.wf(),
                *self == *old(self),
            ensures
                match found {
                    Some(s) => self.next_fit() == Some(s as int) && s < Self::CAPACITY,
                    None => self.next_fit() is None,
                },
            decreases Self::CAPACITY - i,
        {
            let slot = (self.next_free + i) % Self::CAPACITY;
            assert(slot == ring_index(self.next_free(), i as int, Self::CAPACITY as int));
            proof {
                self.lemma_first_free_step(i as int);
            }
            if self.records[slot].is_none() && self.generations[slot] != u32::MAX {
                found = Some(slot);
                break;
            }
            i = i + 1;
        }
        let slot = match found {
            None => {
                return Err(CapError::PoolExhausted);
            },
            Some(s) => s,
        };
        proof {
            self.lemma_first_free_sound(0);
        }
        self.next_free = (slot + 1) % Self::CAPACITY;
        let generation = self.generations[slot] + 1;
        self.generations.set(slot, generation);
        self.records.set(slot, Some(PendingInvocation { waiter, kind, state: PendingState::Waiting }));
        Ok(ObjectId { pool: PoolTag::Pending, index: slot as u16, generation })
    }

    /// Validate an identity, returning its slot.
    fn live_slot(&self, id: ObjectId) -> (r: Result<usize, CapError>)
        requires
            self.wf(),
        ensures
            match self.live(id) {
                Some(_) => r == Ok::<usize, CapError>(id.index as usize),
                None => r == Err::<usize, CapError>(CapError::InvalidOperation),
            },
    {
        if id.pool != PoolTag::Pending {
            return Err(CapError::InvalidOperation);
        }
        let slot = id.index as usize;
        if slot >= Self::CAPACITY {
            return Err(CapError::InvalidOperation);
        }
        match &self.records[slot] {
            Some(_) => {
                if self.generations[slot] == id.generation {
                    Ok(slot)
                } else {
                    Err(CapError::InvalidOperation)
                }
            },
            None => Err(CapError::InvalidOperation),
        }
    }

    /// Terminal transition of a `Waiting` record to `Completed` with an
    /// explicit status word.
    ///
    /// Errors with `InvalidOperation`, changing nothing, if the identity does
    /// not name a live record or the record is no longer `Waiting`: exactly
    /// one terminal transition succeeds.
    pub fn complete_with_status(&mut self, id: ObjectId, status: u64, result0: u64, result1: u64)
        -> (r: Result<(), CapError>)
        requires
            old(self).wf(),
        ensures
            final(self).wf(),
            old(self).evolves_to(final(self)),
            match old(self).live(id) {
                Some(inv) if inv.state == PendingState::Waiting => {
                    &&& r == Ok::<(), CapError>(())
                    &&& final(self).records() == old(self).records().update(id.index as int,
                        Some(PendingInvocation {
                            state: PendingState::Completed { status, result0, result1 },
                            ..inv
                        }))
                    &&& final(self).generations() == old(self).generations()
                    &&& final(self).next_free() == old(self).next_free()
                },
                _ => r == Err::<(), CapError>(CapError::InvalidOperation) && *final(self) == *old(self),
            },
    {
        let slot = self.live_slot(id)?;
        let record = self.records[slot].unwrap();
        match record.state {
            PendingState::Waiting => {
                self.records.set(slot, Some(PendingInvocation {
                    state: PendingState::Completed { status, result0, result1 },
                    ..record
                }));
                Ok(())
            },
            _ => Err(CapError::InvalidOperation),
        }
    }

    /// Terminal transition to `Completed` with the success status.
    pub fn complete(&mut self, id: ObjectId, result0: u64, result1: u64) -> (r: Result<(), CapError>)
        requires
            old(self).wf(),
        ensures
            final(self).wf(),
            old(self).evolves_to(final(self)),
            match old(self).live(id) {
                Some(inv) if inv.state == PendingState::Waiting => {
                    &&& r == Ok::<(), CapError>(())
                    &&& final(self).records() == old(self).records().update(id.index as int,
                        Some(PendingInvocation {
                            state: PendingState::Completed {
                                status: syscall_status::SUCCESS, result0, result1,
                            },
                            ..inv
                        }))
                    &&& final(self).generations() == old(self).generations()
                    &&& final(self).next_free() == old(self).next_free()
                },
                _ => r == Err::<(), CapError>(CapError::InvalidOperation) && *final(self) == *old(self),
            },
    {
        self.complete_with_status(id, syscall_status::SUCCESS, result0, result1)
    }

    /// Terminal transition to `Cancelled` (object teardown). Same
    /// single-terminal-transition rule as [`Self::complete_with_status`].
    pub fn cancel(&mut self, id: ObjectId) -> (r: Result<(), CapError>)
        requires
            old(self).wf(),
        ensures
            final(self).wf(),
            old(self).evolves_to(final(self)),
            match old(self).live(id) {
                Some(inv) if inv.state == PendingState::Waiting => {
                    &&& r == Ok::<(), CapError>(())
                    &&& final(self).records() == old(self).records().update(id.index as int,
                        Some(PendingInvocation { state: PendingState::Cancelled, ..inv }))
                    &&& final(self).generations() == old(self).generations()
                    &&& final(self).next_free() == old(self).next_free()
                },
                _ => r == Err::<(), CapError>(CapError::InvalidOperation) && *final(self) == *old(self),
            },
    {
        let slot = self.live_slot(id)?;
        let record = self.records[slot].unwrap();
        match record.state {
            PendingState::Waiting => {
                self.records.set(slot, Some(PendingInvocation { state: PendingState::Cancelled, ..record }));
                Ok(())
            },
            _ => Err(CapError::InvalidOperation),
        }
    }

    /// The record's state, if the identity is live.
    pub fn state(&self, id: ObjectId) -> (r: Result<PendingState, CapError>)
        requires
            self.wf(),
        ensures
            match self.live(id) {
                Some(inv) => r == Ok::<PendingState, CapError>(inv.state),
                None => r == Err::<PendingState, CapError>(CapError::InvalidOperation),
            },
    {
        let slot = self.live_slot(id)?;
        Ok(self.records[slot].unwrap().state)
    }

    /// The waiter identity stored in a live record.
    pub fn waiter(&self, id: ObjectId) -> (r: Result<ObjectId, CapError>)
        requires
            self.wf(),
        ensures
            match self.live(id) {
                Some(inv) => r == Ok::<ObjectId, CapError>(inv.waiter),
                None => r == Err::<ObjectId, CapError>(CapError::InvalidOperation),
            },
    {
        let slot = self.live_slot(id)?;
        Ok(self.records[slot].unwrap().waiter)
    }

    /// What a live record's invocation waits on.
    pub fn kind(&self, id: ObjectId) -> (r: Result<PendingKind, CapError>)
        requires
            self.wf(),
        ensures
            match self.live(id) {
                Some(inv) => r == Ok::<PendingKind, CapError>(inv.kind),
                None => r == Err::<PendingKind, CapError>(CapError::InvalidOperation),
            },
    {
        let slot = self.live_slot(id)?;
        Ok(self.records[slot].unwrap().kind)
    }

    /// Discard a record whose admission failed before the waiter blocked.
    ///
    /// Rollback half of validate → reserve → commit: the slot's generation is
    /// retained. Returns whether a record was discarded; identities naming a
    /// slot beyond the pool or a different generation discard nothing.
    pub fn abandon(&mut self, id: ObjectId) -> (r: bool)
        requires
            old(self).wf(),
        ensures
            final(self).wf(),
            old(self).evolves_to(final(self)),
            final(self).generations() == old(self).generations(),
            final(self).next_free() == old(self).next_free(),
            ({
                let s = id.index as int;
                if s < Self::CAPACITY && old(self).generations()[s] == id.generation {
                    &&& r == old(self).records()[s] is Some
                    &&& final(self).records() == old(self).records().update(s, None)
                } else {
                    !r && final(self).records() == old(self).records()
                }
            }),
    {
        let slot = id.index as usize;
        if slot >= Self::CAPACITY || self.generations[slot] != id.generation {
            return false;
        }
        let was_live = self.records[slot].is_some();
        self.records.set(slot, None);
        was_live
    }

    /// Release a terminal record after the waiter has resumed and consumed
    /// its outcome; the slot's generation is retained.
    ///
    /// Releasing a `Waiting` record is an error (it would silently drop a
    /// still-blocked invocation), as is a stale identity.
    pub fn release(&mut self, id: ObjectId) -> (r: Result<(), CapError>)
        requires
            old(self).wf(),
        ensures
            final(self).wf(),
            old(self).evolves_to(final(self)),
            match old(self).live(id) {
                Some(inv) if inv.state != PendingState::Waiting => {
                    &&& r == Ok::<(), CapError>(())
                    &&& final(self).records() == old(self).records().update(id.index as int, None)
                    &&& final(self).generations() == old(self).generations()
                    &&& final(self).next_free() == old(self).next_free()
                },
                _ => r == Err::<(), CapError>(CapError::InvalidOperation) && *final(self) == *old(self),
            },
    {
        let slot = self.live_slot(id)?;
        match self.records[slot].unwrap().state {
            PendingState::Waiting => Err(CapError::InvalidOperation),
            _ => {
                self.records.set(slot, None);
                Ok(())
            },
        }
    }

    /// Thread-teardown sweep: every record naming `waiter` reaches its
    /// disposition and is released — a `Waiting` record is cancelled (the
    /// teardown wins the terminal transition) and an already-terminal one is
    /// released unchanged; a torn-down thread never resumes, so nothing else
    /// would release the bounded slots. Returns how many records were
    /// released.
    pub fn teardown_waiter(&mut self, waiter: ObjectId) -> (r: Result<usize, CapError>)
        requires
            old(self).wf(),
        ensures
            final(self).wf(),
            old(self).evolves_to(final(self)),
            final(self).generations() == old(self).generations(),
            final(self).next_free() == old(self).next_free(),
            final(self).records().len() == old(self).records().len(),
            forall|s: int| 0 <= s < Self::CAPACITY ==> #[trigger] final(self).records()[s]
                == if record_of(old(self).records()[s], waiter) { None } else { old(self).records()[s] },
            r == Ok::<usize, CapError>(
                old(self).records().filter(|x: Option<PendingInvocation>| record_of(x, waiter)).len() as usize),
    {
        let ghost before = self.records();
        let ghost pred = |x: Option<PendingInvocation>| record_of(x, waiter);
        let mut count: usize = 0;
        let mut i: usize = 0;
        while i < Self::CAPACITY
            invariant
                self.wf(),
                i <= Self::CAPACITY,
                before == old(self).records(),
                before.len() == Self::CAPACITY,
                pred == (|x: Option<PendingInvocation>| record_of(x, waiter)),
                self.generations() == old(self).generations(),
                self.next_free() == old(self).next_free(),
                count == before.subrange(0, i as int).filter(pred).len(),
                count <= i,
                forall|s: int| 0 <= s < i ==> #[trigger] self.records()[s]
                    == if record_of(before[s], waiter) { None } else { before[s] },
                forall|s: int| i <= s < Self::CAPACITY ==> #[trigger] self.records()[s] == before[s],
            decreases Self::CAPACITY - i,
        {
            proof {
                lemma_filter_prefix_step(before, i as int, pred);
            }
            let matches = match &self.records[i] {
                Some(inv) => inv.waiter == waiter,
                None => false,
            };
            if matches {
                self.records.set(i, None);
                count = count + 1;
            }
            i = i + 1;
        }
        proof {
            assert(before.subrange(0, Self::CAPACITY as int) =~= before);
        }
        Ok(count)
    }
}

/// Whether every queued identity names a distinct live `Waiting` record.
pub open spec fn all_waiting_distinct(pending: &PendingPool, queued: Seq<ObjectId>) -> bool {
    &&& forall|i: int| 0 <= i < queued.len() ==>
        (pending.live(#[trigger] queued[i]) matches Some(inv) && inv.state == PendingState::Waiting)
    &&& forall|i: int, j: int| 0 <= i < j < queued.len() ==> #[trigger] queued[i] != #[trigger] queued[j]
}

/// Whether slot `s` is named by one of the queued identities.
pub open spec fn names_slot(queued: Seq<ObjectId>, s: int) -> bool {
    exists|i: int| 0 <= i < queued.len() && (#[trigger] queued[i]).index as int == s
}

/// The pool records after every queued record took the terminal `state`.
pub open spec fn transitioned_all(old_records: Seq<Option<PendingInvocation>>, queued: Seq<ObjectId>,
    new_records: Seq<Option<PendingInvocation>>, state: PendingState) -> bool {
    &&& new_records.len() == old_records.len()
    &&& forall|s: int| 0 <= s < old_records.len() ==> #[trigger] new_records[s] == if names_slot(queued, s) {
            Some(PendingInvocation { state, ..old_records[s].unwrap() })
        } else {
            old_records[s]
        }
}

/// If a whole queue was distinct and waiting in `p0`, its `k`-th entry is
/// still live and waiting after the first `k` took a terminal transition.
pub proof fn lemma_waiting_remains(p0: &PendingPool, cur: &PendingPool, queued: Seq<ObjectId>, k: int,
    state: PendingState)
    requires
        p0.wf(),
        cur.wf(),
        state != PendingState::Waiting,
        0 <= k < queued.len(),
        all_waiting_distinct(p0, queued),
        cur.generations() == p0.generations(),
        transitioned_all(p0.records(), queued.subrange(0, k), cur.records(), state),
    ensures
        cur.live(queued[k]) matches Some(inv) && inv.state == PendingState::Waiting,
{
    let id = queued[k];
    let s = id.index as int;
    if names_slot(queued.subrange(0, k), s) {
        let i = choose|i: int| 0 <= i < k && (#[trigger] queued.subrange(0, k)[i]).index as int == s;
        assert(queued.subrange(0, k)[i] == queued[i]);
        assert(queued[i] != queued[k]);
        assert(p0.live(queued[i]) is Some);
        assert(p0.live(queued[k]) is Some);
    }
}

/// A terminal transition of the `k`-th queued record extends the
/// transitioned prefix.
pub proof fn lemma_transition_extend(p0: &PendingPool, before: &PendingPool, after: &PendingPool,
    queued: Seq<ObjectId>, k: int, state: PendingState)
    requires
        p0.wf(),
        before.wf(),
        state != PendingState::Waiting,
        0 <= k < queued.len(),
        before.generations() == p0.generations(),
        transitioned_all(p0.records(), queued.subrange(0, k), before.records(), state),
        all_waiting_distinct(p0, queued.subrange(0, k)),
        before.live(queued[k]) matches Some(inv) && inv.state == PendingState::Waiting,
        after.records() == before.records().update(queued[k].index as int,
            Some(PendingInvocation { state, ..before.live(queued[k]).unwrap() })),
    ensures
        transitioned_all(p0.records(), queued.subrange(0, k + 1), after.records(), state),
        all_waiting_distinct(p0, queued.subrange(0, k + 1)),
{
    let id = queued[k];
    let s = id.index as int;
    let pre = queued.subrange(0, k);
    let ext = queued.subrange(0, k + 1);
    assert(ext =~= pre.push(id));
    assert(!names_slot(pre, s)) by {
        if names_slot(pre, s) {
            let i = choose|i: int| 0 <= i < pre.len() && (#[trigger] pre[i]).index as int == s;
            assert(before.records()[s] == Some(PendingInvocation { state, ..p0.records()[s].unwrap() }));
        }
    }
    assert(before.records()[s] == p0.records()[s]);
    assert forall|t: int| 0 <= t < p0.records().len() implies
        names_slot(ext, t) == (names_slot(pre, t) || t == s) by {
        if names_slot(ext, t) {
            let i = choose|i: int| 0 <= i < ext.len() && (#[trigger] ext[i]).index as int == t;
            if i < k {
                assert(pre[i] == ext[i]);
            }
        }
        if names_slot(pre, t) {
            let i = choose|i: int| 0 <= i < pre.len() && (#[trigger] pre[i]).index as int == t;
            assert(ext[i] == pre[i]);
        }
        if t == s {
            assert(ext[k] == id);
        }
    }
    assert forall|i: int| 0 <= i < ext.len() implies
        (p0.live(#[trigger] ext[i]) matches Some(inv) && inv.state == PendingState::Waiting) by {
        if i < k {
            assert(ext[i] == pre[i]);
        }
    }
    assert forall|i: int, j: int| 0 <= i < j < ext.len() implies #[trigger] ext[i] != #[trigger] ext[j] by {
        if j < k {
            assert(ext[i] == pre[i]);
            assert(ext[j] == pre[j]);
        } else {
            assert(ext[i] == pre[i]);
            if ext[i] == id {
                assert(names_slot(pre, s));
            }
        }
    }
}

/// Every pool trivially evolves to itself.
pub proof fn lemma_evolves_refl(pool: &PendingPool)
    ensures
        pool.evolves_to(pool),
{
}

/// The history relation composes.
pub proof fn lemma_evolves_trans(a: &PendingPool, b: &PendingPool, c: &PendingPool)
    requires
        a.evolves_to(b),
        b.evolves_to(c),
    ensures
        a.evolves_to(c),
{
    assert forall|s: int| 0 <= s < a.generations().len()
        && (#[trigger] c.records()[s]) is Some && a.records()[s] is None
        implies c.generations()[s] > a.generations()[s] by {
        assert(c.generations()[s] >= b.generations()[s]);
        assert(b.generations()[s] >= a.generations()[s]);
        if b.records()[s] is None {
        } else {
            assert(b.records()[s] is Some);
        }
    }
    assert forall|s: int| 0 <= s < a.generations().len()
        && (#[trigger] c.records()[s]) is Some && a.records()[s] is Some
        && c.generations()[s] == a.generations()[s]
        implies c.records()[s].unwrap().waiter == a.records()[s].unwrap().waiter
            && c.records()[s].unwrap().kind == a.records()[s].unwrap().kind by {
        assert(c.generations()[s] >= b.generations()[s]);
        assert(b.generations()[s] >= a.generations()[s]);
        if b.records()[s] is None {
            assert(c.generations()[s] > b.generations()[s]);
        }
    }
}

/// Exactly one terminal transition succeeds: once a `Waiting` record has
/// been completed or cancelled (as `complete_with_status`, `complete` and
/// `cancel` leave it), its identity still names it, holding that outcome
/// and no longer `Waiting`, so every later terminal transition on it is
/// refused.
pub proof fn lemma_single_terminal_transition(before: PendingPool, after: PendingPool, id: ObjectId,
    outcome: PendingState)
    requires
        before.wf(),
        before.live(id) matches Some(inv) && inv.state == PendingState::Waiting,
        outcome != PendingState::Waiting,
        after.records() == before.records().update(id.index as int,
            Some(PendingInvocation { state: outcome, ..before.live(id)->Some_0 })),
        after.generations() == before.generations(),
    ensures
        after.live(id) matches Some(inv) && inv.state == outcome,
        !(after.live(id) matches Some(inv) && inv.state == PendingState::Waiting),
{
}

/// Whether `id` can never again resolve in `pool`: its slot has moved past
/// its generation, or sits at it with no record.
pub open spec fn identity_is_stale(pool: &PendingPool, id: ObjectId) -> bool {
    &&& (id.index as int) < PendingPool::CAPACITY
    &&& (pool.generations()[id.index as int] > id.generation
        || (pool.generations()[id.index as int] == id.generation
            && pool.records()[id.index as int] is None))
}

/// A released identity stays stale under every pool operation: it never
/// resolves again, even after its slot is reused.
pub proof fn lemma_stale_identity_stays_stale(old_pool: &PendingPool, new_pool: &PendingPool, id: ObjectId)
    requires
        old_pool.wf(),
        new_pool.wf(),
        old_pool.evolves_to(new_pool),
        identity_is_stale(old_pool, id),
    ensures
        identity_is_stale(new_pool, id),
        new_pool.live(id) is None,
{
    let s = id.index as int;
    assert(new_pool.generations()[s] >= old_pool.generations()[s]);
    if new_pool.records()[s] is Some && old_pool.records()[s] is None {
        assert(new_pool.generations()[s] > old_pool.generations()[s]);
    }
}

} // verus!

verus! {

/// Whether a queued record identity does not belong to `waiter` (the
/// records a thread-teardown removal keeps).
pub open spec fn keeps_record(pending: &PendingPool, waiter: ObjectId, record: ObjectId) -> bool {
    !(pending.live(record) matches Some(inv) && inv.waiter == waiter)
}

/// Bounded FIFO of blocked waiters (pending-invocation record identities).
///
/// The bound is the per-object wait reservation: a full queue rejects the
/// blocking attempt before admission with `PoolExhausted`.
pub struct WaitQueue {
    queue: Vec<ObjectId>,
    head: usize,
    len: usize,
}

impl WaitQueue {
    /// Waiters per synchronization object.
    pub const CAPACITY: usize = 8;

    /// The queued record identities, oldest first.
    pub closed spec fn view(&self) -> Seq<ObjectId> {
        ring_view(self.queue@, self.head as int, self.len as int, Self::CAPACITY as int)
    }

    /// Internal consistency of the ring.
    pub closed spec fn wf(&self) -> bool {
        &&& self.queue@.len() == Self::CAPACITY
        &&& self.head < Self::CAPACITY
        &&& self.len <= Self::CAPACITY
    }

    /// A consistent queue holds at most its capacity.
    pub proof fn lemma_bounded(&self)
        requires
            self.wf(),
        ensures
            self@.len() <= Self::CAPACITY,
    {
    }

    /// An empty queue.
    pub fn new() -> (r: WaitQueue)
        ensures
            r.wf(),
            r@ == Seq::<ObjectId>::empty(),
    {
        let mut queue: Vec<ObjectId> = Vec::new();
        while queue.len() < Self::CAPACITY
            invariant
                queue.len() <= Self::CAPACITY,
            decreases Self::CAPACITY - queue.len(),
        {
            queue.push(ObjectId::vacant());
        }
        let r = WaitQueue { queue, head: 0, len: 0 };
        assert(r@ =~= Seq::<ObjectId>::empty());
        r
    }

    /// Number of queued waiters.
    pub fn len(&self) -> (r: usize)
        requires
            self.wf(),
        ensures
            r == self@.len(),
    {
        self.len
    }

    /// Whether no waiter is queued.
    pub fn is_empty(&self) -> (r: bool)
        requires
            self.wf(),
        ensures
            r == (self@.len() == 0),
    {
        self.len == 0
    }

    /// Whether the reservation is exhausted; checked before registering a
    /// record so admission failure needs no rollback.
    pub fn is_full(&self) -> (r: bool)
        requires
            self.wf(),
        ensures
            r == (self@.len() == Self::CAPACITY),
    {
        self.len == Self::CAPACITY
    }

    /// The front (oldest) waiter, if any.
    pub fn front(&self) -> (r: Option<ObjectId>)
        requires
            self.wf(),
        ensures
            r == (if self@.len() > 0 { Some(self@[0]) } else { None::<ObjectId> }),
    {
        if self.len == 0 {
            None
        } else {
            Some(self.queue[self.head])
        }
    }

    /// Enqueue a waiter at the back. Fails with `PoolExhausted`, changing
    /// nothing, when full.
    pub fn push(&mut self, id: ObjectId) -> (r: Result<(), CapError>)
        requires
            old(self).wf(),
        ensures
            final(self).wf(),
            old(self)@.len() < Self::CAPACITY ==> r == Ok::<(), CapError>(())
                && final(self)@ == old(self)@.push(id),
            old(self)@.len() == Self::CAPACITY ==> r == Err::<(), CapError>(CapError::PoolExhausted)
                && final(self)@ == old(self)@,
    {
        if self.is_full() {
            return Err(CapError::PoolExhausted);
        }
        let back = (self.head + self.len) % Self::CAPACITY;
        assert(back == ring_index(self.head as int, self.len as int, Self::CAPACITY as int));
        let ghost before = self@;
        self.queue.set(back, id);
        self.len = self.len + 1;
        proof {
            assert forall|i: int| 0 <= i < before.len() implies self@[i] == before[i] by {
                lemma_ring_index_injective(self.head as int, i, (self.len - 1) as int, Self::CAPACITY as int);
            }
            assert(self@ =~= before.push(id));
        }
        Ok(())
    }

    /// Dequeue the front (oldest) waiter.
    pub fn pop_front(&mut self) -> (r: Option<ObjectId>)
        requires
            old(self).wf(),
        ensures
            final(self).wf(),
            old(self)@.len() == 0 ==> r == None::<ObjectId> && final(self)@ == old(self)@,
            old(self)@.len() > 0 ==> r == Some(old(self)@[0]) && final(self)@ == old(self)@.drop_first(),
    {
        if self.len == 0 {
            return None;
        }
        let ghost before = self@;
        let id = self.queue[self.head];
        let old_head = self.head;
        self.queue.set(old_head, ObjectId::vacant());
        self.head = (self.head + 1) % Self::CAPACITY;
        self.len = self.len - 1;
        proof {
            assert forall|i: int| 0 <= i < self.len implies self@[i] == before.drop_first()[i] by {
                lemma_ring_index_injective(old_head as int, 0, i + 1, Self::CAPACITY as int);
            }
            assert(self@ =~= before.drop_first());
        }
        Some(id)
    }

    /// Remove a specific waiter (cancellation), preserving the order of the
    /// remaining waiters. Only its first (oldest) occurrence is removed.
    /// Returns whether it was queued.
    pub fn remove(&mut self, id: ObjectId) -> (r: bool)
        requires
            old(self).wf(),
        ensures
            final(self).wf(),
            r == old(self)@.contains(id),
            !r ==> final(self)@ == old(self)@,
            r ==> exists|pos: int| 0 <= pos < old(self)@.len()
                && old(self)@[pos] == id
                && (forall|k: int| 0 <= k < pos ==> old(self)@[k] != id)
                && final(self)@ == old(self)@.remove(pos),
    {
        let ghost before = self@;
        let mut found: Option<usize> = None;
        let mut i: usize = 0;
        while i < self.len
            invariant_except_break
                found is None,
                forall|k: int| 0 <= k < i ==> before[k] != id,
            invariant
                self.wf(),
                self@ == before,
                i <= self.len,
            ensures
                match found {
                    Some(p) => p < self.len && before[p as int] == id
                        && forall|k: int| 0 <= k < p ==> before[k] != id,
                    None => forall|k: int| 0 <= k < self.len ==> before[k] != id,
                },
            decreases self.len - i,
        {
            let slot = (self.head + i) % Self::CAPACITY;
            assert(slot == ring_index(self.head as int, i as int, Self::CAPACITY as int));
            if self.queue[slot] == id {
                found = Some(i);
                break;
            }
            i = i + 1;
        }
        let pos = match found {
            None => {
                proof {
                    if before.contains(id) {
                        let w = choose|w: int| 0 <= w < before.len() && before[w] == id;
                        assert(before[w] != id);
                    }
                }
                return false;
            },
            Some(p) => p,
        };
        // Shift the waiters behind the removed entry forward, preserving
        // FIFO order.
        let last = self.len - 1;
        let mut j: usize = pos;
        while j < last
            invariant
                self.wf(),
                self.len == before.len(),
                self.head == old(self).head,
                last + 1 == self.len,
                pos <= j <= last,
                forall|k: int| 0 <= k < pos ==>
                    #[trigger] self.queue@[ring_index(self.head as int, k, Self::CAPACITY as int)] == before[k],
                forall|k: int| pos <= k < j ==>
                    #[trigger] self.queue@[ring_index(self.head as int, k, Self::CAPACITY as int)] == before[k + 1],
                forall|k: int| j <= k < self.len ==>
                    #[trigger] self.queue@[ring_index(self.head as int, k, Self::CAPACITY as int)] == before[k],
            decreases last - j,
        {
            let dst = (self.head + j) % Self::CAPACITY;
            let src = (self.head + j + 1) % Self::CAPACITY;
            assert(dst == ring_index(self.head as int, j as int, Self::CAPACITY as int));
            assert(src == ring_index(self.head as int, j + 1, Self::CAPACITY as int));
            let moved = self.queue[src];
            self.queue.set(dst, moved);
            proof {
                assert forall|k: int| 0 <= k < self.len && k != j implies
                    #[trigger] ring_index(self.head as int, k, Self::CAPACITY as int)
                        != ring_index(self.head as int, j as int, Self::CAPACITY as int) by {
                    lemma_ring_index_injective(self.head as int, k, j as int, Self::CAPACITY as int);
                }
            }
            j = j + 1;
        }
        let tail = (self.head + last) % Self::CAPACITY;
        assert(tail == ring_index(self.head as int, last as int, Self::CAPACITY as int));
        self.queue.set(tail, ObjectId::vacant());
        self.len = last;
        proof {
            assert forall|k: int| 0 <= k < self.len implies
                #[trigger] ring_index(self.head as int, k, Self::CAPACITY as int)
                    != ring_index(self.head as int, last as int, Self::CAPACITY as int) by {
                lemma_ring_index_injective(self.head as int, k, last as int, Self::CAPACITY as int);
            }
            assert(self@ =~= before.remove(pos as int));
            assert(before.contains(id)) by {
                assert(before[pos as int] == id);
            }
        }
        true
    }

    /// Thread-teardown removal: stop holding every queued record whose live
    /// waiter is `waiter`, preserving the FIFO order of the rest. The pool's
    /// teardown sweep gives those records their disposition. Returns how many
    /// records were unqueued.
    pub fn remove_waiter(&mut self, waiter: ObjectId, pending: &PendingPool) -> (r: usize)
        requires
            old(self).wf(),
            pending.wf(),
        ensures
            final(self).wf(),
            final(self)@ == old(self)@.filter(|x: ObjectId| keeps_record(pending, waiter, x)),
            r == old(self)@.len() - final(self)@.len(),
    {
        let ghost before = self@;
        let ghost pred = |x: ObjectId| keeps_record(pending, waiter, x);
        let live = self.len;
        let mut kept: usize = 0;
        let mut i: usize = 0;
        while i < live
            invariant
                self.wf(),
                pending.wf(),
                self.head == old(self).head,
                self.len == live,
                live == before.len(),
                before == old(self)@,
                0 <= kept <= i <= live,
                pred == (|x: ObjectId| keeps_record(pending, waiter, x)),
                kept == before.subrange(0, i as int).filter(pred).len(),
                forall|k: int| 0 <= k < kept ==>
                    #[trigger] self.queue@[ring_index(self.head as int, k, Self::CAPACITY as int)]
                        == before.subrange(0, i as int).filter(pred)[k],
                forall|k: int| i <= k < live ==>
                    #[trigger] self.queue@[ring_index(self.head as int, k, Self::CAPACITY as int)]
                        == before[k],
            decreases live - i,
        {
            let slot = (self.head + i) % Self::CAPACITY;
            assert(slot == ring_index(self.head as int, i as int, Self::CAPACITY as int));
            let entry = self.queue[slot];
            assert(entry == before[i as int]);
            proof {
                lemma_filter_prefix_step(before, i as int, pred);
            }
            let blocked_by_waiter = match pending.waiter(entry) {
                Ok(blocked) => blocked == waiter,
                Err(_) => false,
            };
            if !blocked_by_waiter {
                let dst = (self.head + kept) % Self::CAPACITY;
                assert(dst == ring_index(self.head as int, kept as int, Self::CAPACITY as int));
                self.queue.set(dst, entry);
                proof {
                    assert forall|k: int| i < k < live implies
                        #[trigger] self.queue@[ring_index(self.head as int, k, Self::CAPACITY as int)] == before[k] by {
                        lemma_ring_index_injective(self.head as int, kept as int, k, Self::CAPACITY as int);
                    }
                    assert forall|k: int| 0 <= k < kept implies
                        #[trigger] self.queue@[ring_index(self.head as int, k, Self::CAPACITY as int)]
                            == before.subrange(0, i as int).filter(pred)[k] by {
                        lemma_ring_index_injective(self.head as int, kept as int, k, Self::CAPACITY as int);
                    }
                }
                kept = kept + 1;
            }
            i = i + 1;
        }
        proof {
            assert(before.subrange(0, live as int) =~= before);
        }
        let mut j: usize = kept;
        while j < live
            invariant
                self.wf(),
                self.head == old(self).head,
                kept <= j <= live,
                live <= Self::CAPACITY,
                kept == before.filter(pred).len(),
                forall|k: int| 0 <= k < kept ==>
                    #[trigger] self.queue@[ring_index(self.head as int, k, Self::CAPACITY as int)]
                        == before.filter(pred)[k],
            decreases live - j,
        {
            let slot = (self.head + j) % Self::CAPACITY;
            assert(slot == ring_index(self.head as int, j as int, Self::CAPACITY as int));
            self.queue.set(slot, ObjectId::vacant());
            proof {
                assert forall|k: int| 0 <= k < kept implies
                    #[trigger] self.queue@[ring_index(self.head as int, k, Self::CAPACITY as int)]
                        == before.filter(pred)[k] by {
                    lemma_ring_index_injective(self.head as int, j as int, k, Self::CAPACITY as int);
                }
            }
            j = j + 1;
        }
        self.len = kept;
        proof {
            assert(self@ =~= before.filter(pred));
        }
        live - kept
    }
}

} // verus!
