//! Typed object pools with authoritative per-slot lifecycle metadata.
//!
//! Objects are allocated into pool slots and live until deallocated.
//! Capabilities carry only `ObjectId` handles, validated against this
//! metadata (pool tag, bounds, liveness, generation) before any access.
//! Generations are retained after deallocation and never wrap: a slot whose
//! generation is exhausted is never reused.

use vstd::prelude::*;
use crate::access::{ObjectId, PoolTag};
use crate::error::CapError;
use crate::nucleus_object::NucleusObject;
use crate::ring::{count_where, lemma_count_bounds, lemma_count_none, lemma_count_update, ring_index};

verus! {

/// Authoritative lifecycle state of one pool slot.
#[derive(Clone, Copy, Debug, PartialEq, Eq, Structural)]
pub enum SlotState {
    Free,
    Live,
    Retired,
}

/// Per-slot metadata: allocation state plus allocation generation.
#[derive(Clone, Copy, Debug, PartialEq, Eq, Structural)]
pub struct SlotMeta {
    pub state: SlotState,
    pub generation: u32,
}

/// Maximum slots per pool. Metadata is inline, so this bounds pool size.
pub const MAX_POOL_SLOTS: usize = 256;

/// Number of live slots among the first `n` metadata entries.
pub open spec fn live_count(meta: Seq<SlotMeta>, n: int) -> int
    decreases n,
{
    if n <= 0 {
        0
    } else {
        live_count(meta, n - 1) + if meta[n - 1].state == SlotState::Live { 1int } else { 0int }
    }
}

/// Changing one slot's state changes the live count by the difference.
pub proof fn lemma_live_count_update(meta: Seq<SlotMeta>, n: int, i: int, m: SlotMeta)
    requires
        0 <= i < n <= meta.len(),
    ensures
        live_count(meta.update(i, m), n) == live_count(meta, n)
            - (if meta[i].state == SlotState::Live { 1int } else { 0int })
            + (if m.state == SlotState::Live { 1int } else { 0int }),
    decreases n,
{
    if n - 1 > i {
        lemma_live_count_update(meta, n - 1, i, m);
    } else {
        lemma_live_count_prefix(meta, meta.update(i, m), n - 1, i);
    }
}

/// Live counts agree on prefixes where the metadata agrees.
proof fn lemma_live_count_prefix(a: Seq<SlotMeta>, b: Seq<SlotMeta>, k: int, i: int)
    requires
        0 <= k <= i,
        i < a.len(),
        a.len() == b.len(),
        forall|j: int| 0 <= j < i ==> a[j] == b[j],
    ensures
        live_count(a, k) == live_count(b, k),
    decreases k,
{
    if k > 0 {
        lemma_live_count_prefix(a, b, k - 1, i);
    }
}

/// The live count of a prefix is between zero and its length.
pub proof fn lemma_live_count_bounds(meta: Seq<SlotMeta>, n: int)
    requires
        0 <= n <= meta.len(),
    ensures
        0 <= live_count(meta, n) <= n,
    decreases n,
{
    if n > 0 {
        lemma_live_count_bounds(meta, n - 1);
    }
}

/// `a % m` for `0 <= a < 2m`.
pub proof fn lemma_mod_wrap(a: int, m: int)
    requires
        0 < m,
        0 <= a < 2 * m,
    ensures
        a % m == if a < m { a } else { a - m },
{
    if a < m {
        vstd::arithmetic::div_mod::lemma_small_mod(a as nat, m as nat);
    } else {
        vstd::arithmetic::div_mod::lemma_small_mod((a - m) as nat, m as nat);
        vstd::arithmetic::div_mod::lemma_mod_add_multiples_vanish(a - m, m);
    }
}

/// A pool of kernel objects of type `T`.
pub struct ObjectPool<T: NucleusObject> {
    /// The pool tag every identity issued by this pool carries.
    tag: PoolTag,
    /// Object storage, one entry per usable slot.
    objects: Vec<Option<T>>,
    /// Per-slot authoritative metadata.
    meta: Vec<SlotMeta>,
    /// Number of live objects.
    count: u16,
    /// Total capacity.
    capacity: u16,
    /// Next-fit cursor: the slot to start scanning from on the next
    /// allocation.
    next_free: u16,
}

impl<T: NucleusObject> ObjectPool<T> {
    /// Maximum slots per pool.
    pub const MAX_SLOTS: usize = 256;

    pub closed spec fn tag(&self) -> PoolTag {
        self.tag
    }

    pub closed spec fn objects(&self) -> Seq<Option<T>> {
        self.objects@
    }

    pub closed spec fn meta(&self) -> Seq<SlotMeta> {
        self.meta@
    }

    pub closed spec fn capacity(&self) -> int {
        self.capacity as int
    }

    pub closed spec fn next_free(&self) -> int {
        self.next_free as int
    }

    /// Consistency: storage sized to the capacity, a slot holds an object
    /// exactly when it is live, every live object satisfies its invariant,
    /// and the live count matches the metadata.
    pub open spec fn wf(&self) -> bool {
        &&& self.meta().len() == MAX_POOL_SLOTS
        &&& self.objects().len() == self.capacity()
        &&& 0 <= self.capacity() <= MAX_POOL_SLOTS
        &&& (self.capacity() == 0 || self.next_free() < self.capacity())
        &&& forall|s: int| 0 <= s < self.capacity() ==>
            ((#[trigger] self.objects()[s]) is Some <==> self.meta()[s].state == SlotState::Live)
        &&& forall|s: int| 0 <= s < self.capacity() && (#[trigger] self.objects()[s]) is Some
            ==> self.objects()[s].unwrap().inv()
        &&& forall|s: int| 0 <= s < self.capacity() && (#[trigger] self.meta()[s]).state == SlotState::Live
            ==> self.meta()[s].generation >= 1
        &&& self.spec_len() == live_count(self.meta(), self.capacity())
    }

    /// Number of live objects.
    pub closed spec fn spec_len(&self) -> int {
        self.count as int
    }

    /// The live object an identity names, if any.
    pub open spec fn live(&self, id: ObjectId) -> Option<T> {
        if id.pool == self.tag() && (id.index as int) < self.capacity()
            && self.meta()[id.index as int].state == SlotState::Live
            && self.meta()[id.index as int].generation == id.generation {
            self.objects()[id.index as int]
        } else {
            None
        }
    }

    /// Whether slot `s` can take a new allocation.
    pub open spec fn slot_free(&self, s: int) -> bool {
        self.meta()[s].state == SlotState::Free && self.meta()[s].generation != u32::MAX
    }

    /// The first allocatable slot at or after cursor offset `k`.
    pub open spec fn first_free_from(&self, k: int) -> Option<int>
        decreases self.capacity() - k,
    {
        if k < 0 || k >= self.capacity() {
            None
        } else {
            let s = ring_index(self.next_free(), k, self.capacity());
            if self.slot_free(s) { Some(s) } else { self.first_free_from(k + 1) }
        }
    }

    /// The slot the next allocation takes, if any (next-fit).
    pub open spec fn next_fit(&self) -> Option<int> {
        self.first_free_from(0)
    }

    /// The identities the next `n` allocations take (see [`run_ids`]).
    pub open spec fn next_run(&self, n: nat) -> Seq<ObjectId> {
        run_ids(self.tag(), self.meta(), self.next_free(), self.capacity(), n)
    }

    /// The scan from a cursor offset is the metadata scan.
    proof fn lemma_first_free_scan(&self, k: int)
        ensures
            self.first_free_from(k) == scan_free(self.meta(), self.next_free(), self.capacity(), k),
        decreases self.capacity() - k,
    {
        if 0 <= k < self.capacity() {
            self.lemma_first_free_scan(k + 1);
        }
    }

    /// Identities never resolve to a different object than the one they
    /// were issued for: generations never decrease, and a slot only comes
    /// back to life under a fresh generation.
    pub open spec fn evolves_to(&self, new: &ObjectPool<T>) -> bool {
        &&& new.tag() == self.tag()
        &&& new.capacity() == self.capacity()
        &&& forall|s: int| 0 <= s < MAX_POOL_SLOTS ==>
            #[trigger] new.meta()[s].generation >= self.meta()[s].generation
        &&& forall|s: int| 0 <= s < MAX_POOL_SLOTS
            && (#[trigger] new.meta()[s]).state == SlotState::Live && self.meta()[s].state != SlotState::Live
            ==> new.meta()[s].generation > self.meta()[s].generation
    }

    /// An empty pool of `capacity` slots whose identities carry `tag`.
    pub fn new(tag: PoolTag, capacity: usize) -> (r: ObjectPool<T>)
        requires
            capacity <= MAX_POOL_SLOTS,
        ensures
            r.wf(),
            r.tag() == tag,
            r.capacity() == capacity,
            r.next_free() == 0,
            r.spec_len() == 0,
            forall|s: int| 0 <= s < MAX_POOL_SLOTS ==>
                #[trigger] r.meta()[s] == (SlotMeta { state: SlotState::Free, generation: 0 }),
    {
        let mut meta: Vec<SlotMeta> = Vec::new();
        while meta.len() < MAX_POOL_SLOTS
            invariant
                meta.len() <= MAX_POOL_SLOTS,
                forall|s: int| 0 <= s < meta.len() ==>
                    #[trigger] meta@[s] == (SlotMeta { state: SlotState::Free, generation: 0 }),
            decreases MAX_POOL_SLOTS - meta.len(),
        {
            meta.push(SlotMeta { state: SlotState::Free, generation: 0 });
        }
        let mut objects: Vec<Option<T>> = Vec::new();
        while objects.len() < capacity
            invariant
                objects.len() <= capacity,
                forall|s: int| 0 <= s < objects.len() ==> #[trigger] objects@[s] is None,
            decreases capacity - objects.len(),
        {
            objects.push(None);
        }
        let r = ObjectPool { tag, objects, meta, count: 0, capacity: capacity as u16, next_free: 0 };
        proof {
            lemma_live_count_zero(r.meta(), capacity as int);
        }
        r
    }

    proof fn lemma_first_free_sound(&self, k: int)
        requires
            self.wf(),
        ensures
            self.first_free_from(k) matches Some(s) ==> 0 <= s < self.capacity() && self.slot_free(s),
        decreases self.capacity() - k,
    {
        if 0 <= k < self.capacity() {
            self.lemma_first_free_sound(k + 1);
        }
    }

    /// Allocate `init` in the next-fit slot (the first slot at or after the
    /// cursor, with wrap-around, that is free and not generation-exhausted),
    /// advancing its generation; the first generation of a slot is 1. Returns
    /// the checked identity, or `None`, changing nothing, when no slot
    /// qualifies.
    pub fn allocate(&mut self, init: T) -> (r: Option<ObjectId>)
        requires
            old(self).wf(),
            init.inv(),
        ensures
            final(self).wf(),
            old(self).evolves_to(final(self)),
            match old(self).next_fit() {
                None => r is None && *final(self) == *old(self),
                Some(s) => {
                    &&& r == Some(ObjectId {
                        pool: old(self).tag(),
                        index: s as u16,
                        generation: (old(self).meta()[s].generation + 1) as u32,
                    })
                    &&& final(self).meta() == old(self).meta().update(s, SlotMeta {
                        state: SlotState::Live,
                        generation: (old(self).meta()[s].generation + 1) as u32,
                    })
                    &&& final(self).objects() == old(self).objects().update(s, Some(init))
                    &&& final(self).next_free() == ring_index(s, 1, old(self).capacity())
                    &&& final(self).spec_len() == old(self).spec_len() + 1
                },
            },
    {
        let capacity = self.capacity as usize;
        let start = self.next_free as usize;
        let mut i: usize = 0;
        let mut found: Option<usize> = None;
        while i < capacity
            invariant_except_break
                self.wf(),
                i <= capacity,
                found is None,
                self.next_fit() == self.first_free_from(i as int),
            invariant
                self.wf(),
                *self == *old(self),
                capacity == self.capacity(),
                start == self.next_free(),
            ensures
                match found {
                    Some(s) => self.next_fit() == Some(s as int),
                    None => self.next_fit() is None,
                },
            decreases capacity - i,
        {
            proof {
                lemma_mod_wrap(start + i, capacity as int);
            }
            let slot = (start + i) % capacity;
            assert(slot == ring_index(self.next_free(), i as int, self.capacity()));
            let m = self.meta[slot];
            if m.state == SlotState::Free && m.generation != u32::MAX {
                found = Some(slot);
                break;
            }
            i = i + 1;
        }
        let slot = match found {
            None => {
                return None;
            },
            Some(s) => s,
        };
        proof {
            self.lemma_first_free_sound(0);
            lemma_mod_wrap(slot + 1, capacity as int);
            lemma_live_count_update(self.meta(), capacity as int, slot as int,
                SlotMeta { state: SlotState::Live, generation: (self.meta()[slot as int].generation + 1) as u32 });
            lemma_live_count_bounds(self.meta(), capacity as int);
            lemma_live_count_bounds(self.meta().update(slot as int,
                SlotMeta { state: SlotState::Live, generation: (self.meta()[slot as int].generation + 1) as u32 }),
                capacity as int);
        }
        self.next_free = ((slot + 1) % capacity) as u16;
        let generation = self.meta[slot].generation + 1;
        self.meta.set(slot, SlotMeta { state: SlotState::Live, generation });
        self.objects.set(slot, Some(init));
        self.count = self.count + 1;
        Some(ObjectId { pool: self.tag, index: slot as u16, generation })
    }

    /// Shared metadata check: pool tag, slot bounds, liveness, generation.
    fn check(&self, id: ObjectId) -> (r: Result<(), CapError>)
        requires
            self.wf(),
        ensures
            r is Ok <==> self.live(id) is Some,
            r is Err ==> r == Err::<(), CapError>(CapError::InvalidOperation),
    {
        if id.pool != self.tag {
            return Err(CapError::InvalidOperation);
        }
        if id.index >= self.capacity {
            return Err(CapError::InvalidOperation);
        }
        let m = self.meta[id.index as usize];
        if m.state == SlotState::Live && m.generation == id.generation {
            Ok(())
        } else {
            Err(CapError::InvalidOperation)
        }
    }

    /// Validate an identity and return the live object it names. Stale,
    /// foreign-pool and out-of-bounds identities are rejected with
    /// `InvalidOperation`.
    pub fn validate(&self, id: ObjectId) -> (r: Result<&T, CapError>)
        requires
            self.wf(),
        ensures
            match self.live(id) {
                Some(obj) => r == Ok::<&T, CapError>(&obj),
                None => r == Err::<&T, CapError>(CapError::InvalidOperation),
            },
    {
        self.check(id)?;
        match &self.objects[id.index as usize] {
            Some(obj) => Ok(obj),
            None => Err(CapError::InvalidOperation),
        }
    }

    /// Validate an identity and return exclusive access to the live object;
    /// whatever the caller leaves there is what the slot then holds.
    pub fn validate_mut(&mut self, id: ObjectId) -> (r: Result<&mut T, CapError>)
        requires
            old(self).wf(),
        ensures
            match old(self).live(id) {
                Some(obj) => r matches Ok(x) && *x == obj && {
                    &&& final(self).objects() == old(self).objects().update(id.index as int, Some(*final(x)))
                    &&& final(self).meta() == old(self).meta()
                    &&& final(self).tag() == old(self).tag()
                    &&& final(self).capacity() == old(self).capacity()
                    &&& final(self).next_free() == old(self).next_free()
                    &&& final(self).spec_len() == old(self).spec_len()
                },
                None => r matches Err(e) && e == CapError::InvalidOperation && *final(self) == *old(self),
            },
    {
        if let Err(e) = self.check(id) {
            return Err(e);
        }
        match &mut self.objects[id.index as usize] {
            Some(obj) => Ok(obj),
            None => Err(CapError::InvalidOperation),
        }
    }

    /// Validate two identities meant to name distinct objects of this pool.
    /// Same-slot aliases are rejected before either is checked; both must be
    /// live.
    pub fn validate_pair(&self, first: ObjectId, second: ObjectId) -> (r: Result<(), CapError>)
        requires
            self.wf(),
        ensures
            r is Ok <==> first.index != second.index && self.live(first) is Some && self.live(second) is Some,
            r is Err ==> r == Err::<(), CapError>(CapError::InvalidOperation),
    {
        if first.index == second.index {
            return Err(CapError::InvalidOperation);
        }
        self.check(first)?;
        self.check(second)?;
        Ok(())
    }

    /// Deallocate an object, retaining its generation for stale-handle
    /// rejection. The slot becomes free and may be reallocated with an
    /// advanced generation.
    pub fn deallocate(&mut self, id: ObjectId) -> (r: Result<(), CapError>)
        requires
            old(self).wf(),
        ensures
            final(self).wf(),
            old(self).evolves_to(final(self)),
            old(self).live(id) is None ==> r == Err::<(), CapError>(CapError::InvalidOperation)
                && *final(self) == *old(self),
            old(self).live(id) is Some ==> {
                &&& r == Ok::<(), CapError>(())
                &&& final(self).meta() == old(self).meta().update(id.index as int, SlotMeta {
                    state: SlotState::Free, generation: id.generation })
                &&& final(self).objects() == old(self).objects().update(id.index as int, None)
                &&& final(self).next_free() == old(self).next_free()
                &&& final(self).spec_len() == old(self).spec_len() - 1
            },
    {
        self.check(id)?;
        let slot = id.index as usize;
        proof {
            lemma_live_count_update(self.meta(), self.capacity(), slot as int,
                SlotMeta { state: SlotState::Free, generation: id.generation });
            lemma_live_count_bounds(self.meta(), self.capacity());
            assert(live_count(self.meta(), self.capacity()) >= 1) by {
                lemma_live_count_bounds(self.meta().update(slot as int,
                    SlotMeta { state: SlotState::Free, generation: id.generation }), self.capacity());
            }
        }
        self.meta.set(slot, SlotMeta { state: SlotState::Free, generation: id.generation });
        self.count = self.count - 1;
        self.objects.set(slot, None);
        Ok(())
    }

    /// Shared access to a live object by pool index, without identity
    /// validation (bootstrap paths where no capability identity exists).
    pub fn get_live(&self, index: usize) -> (r: Option<&T>)
        requires
            self.wf(),
        ensures
            (index as int) < self.capacity() && self.meta()[index as int].state == SlotState::Live
                ==> r == Some(&self.objects()[index as int].unwrap()),
            !((index as int) < self.capacity() && self.meta()[index as int].state == SlotState::Live)
                ==> r is None,
    {
        if index >= self.capacity as usize {
            return None;
        }
        match &self.objects[index] {
            Some(obj) => Some(obj),
            None => None,
        }
    }

    /// Exclusive access to a live object by pool index; see `get_live`.
    pub fn get_live_mut(&mut self, index: usize) -> (r: Option<&mut T>)
        requires
            old(self).wf(),
        ensures
            (index as int) < old(self).capacity() && old(self).meta()[index as int].state == SlotState::Live
                ==> (r matches Some(x) && *x == old(self).objects()[index as int].unwrap() && {
                    &&& final(self).objects() == old(self).objects().update(index as int, Some(*final(x)))
                    &&& final(self).meta() == old(self).meta()
                    &&& final(self).tag() == old(self).tag()
                    &&& final(self).capacity() == old(self).capacity()
                    &&& final(self).next_free() == old(self).next_free()
                    &&& final(self).spec_len() == old(self).spec_len()
                }),
            !((index as int) < old(self).capacity() && old(self).meta()[index as int].state == SlotState::Live)
                ==> r is None && *final(self) == *old(self),
    {
        if index >= self.capacity as usize || self.objects[index].is_none() {
            return None;
        }
        match &mut self.objects[index] {
            Some(obj) => Some(obj),
            None => None,
        }
    }

    /// The current allocation generation of a live slot by index.
    pub fn generation_of(&self, index: usize) -> (r: Option<u32>)
        requires
            self.wf(),
        ensures
            (index as int) < self.capacity() && self.meta()[index as int].state == SlotState::Live
                ==> r == Some(self.meta()[index as int].generation),
            !((index as int) < self.capacity() && self.meta()[index as int].state == SlotState::Live)
                ==> r is None,
    {
        if index >= self.capacity as usize {
            return None;
        }
        let m = self.meta[index];
        if m.state != SlotState::Live {
            return None;
        }
        Some(m.generation)
    }

    /// Number of live objects.
    pub fn len(&self) -> (r: usize)
        requires
            self.wf(),
        ensures
            r == self.spec_len(),
            r == live_count(self.meta(), self.capacity()),
    {
        self.count as usize
    }

    /// Whether the pool has no live objects.
    pub fn is_empty(&self) -> (r: bool)
        requires
            self.wf(),
        ensures
            r == (self.spec_len() == 0),
    {
        self.count == 0
    }
}

/// Whether a slot's metadata admits a new allocation: free and not
/// generation-exhausted.
pub open spec fn meta_free(m: SlotMeta) -> bool {
    m.state == SlotState::Free && m.generation != u32::MAX
}

/// The first allocatable slot at or after cursor offset `k`, scanning the
/// metadata `meta` of a `cap`-slot pool forward from cursor `nf` with
/// wrap-around.
pub open spec fn scan_free(meta: Seq<SlotMeta>, nf: int, cap: int, k: int) -> Option<int>
    decreases cap - k,
{
    if k < 0 || k >= cap {
        None
    } else {
        let s = ring_index(nf, k, cap);
        if meta_free(meta[s]) { Some(s) } else { scan_free(meta, nf, cap, k + 1) }
    }
}

/// The identities a run of `n` next-fit allocations takes, in order, from
/// a `cap`-slot pool tagged `tag` with metadata `meta` and cursor `nf`:
/// each takes the first allocatable slot from the cursor with its advanced
/// generation, and moves the cursor just past it.
pub open spec fn run_ids(tag: PoolTag, meta: Seq<SlotMeta>, nf: int, cap: int, n: nat) -> Seq<ObjectId>
    decreases n,
{
    if n == 0 {
        Seq::empty()
    } else {
        match scan_free(meta, nf, cap, 0) {
            None => Seq::empty(),
            Some(s) => {
                let g = (meta[s].generation + 1) as u32;
                seq![ObjectId { pool: tag, index: s as u16, generation: g }] + run_ids(tag,
                    meta.update(s, SlotMeta { state: SlotState::Live, generation: g }), ring_index(s, 1, cap), cap,
                    (n - 1) as nat)
            },
        }
    }
}

/// Whether one of `ids[lo..hi]` names slot `s`.
pub open spec fn picked(ids: Seq<ObjectId>, lo: int, hi: int, s: int) -> bool {
    exists|j: int| lo <= j < hi && (#[trigger] ids[j]).index == s
}

/// `b` is `a` with one new live object per identity in `ids`, each in a
/// slot that held none and satisfying `made` at its position; every other
/// slot keeps its object.
pub open spec fn pool_grew<T: NucleusObject>(a: &ObjectPool<T>, b: &ObjectPool<T>, ids: Seq<ObjectId>,
    made: spec_fn(int, T) -> bool) -> bool {
    &&& forall|j: int| 0 <= j < ids.len() ==> {
        &&& b.live(#[trigger] ids[j]) matches Some(x) && made(j, x)
        &&& a.live(ids[j]) is None
        &&& a.objects()[ids[j].index as int] is None
        &&& ids[j].pool == a.tag()
    }
    &&& forall|j: int, k: int| 0 <= j < k < ids.len() ==> (#[trigger] ids[j]).index != (#[trigger] ids[k]).index
    &&& forall|s: int| 0 <= s < a.capacity() && !picked(ids, 0, ids.len() as int, s)
        ==> #[trigger] b.objects()[s] == a.objects()[s]
    &&& b.spec_len() == a.spec_len() + ids.len()
}

/// A run's objects that each satisfy a stronger description satisfy a
/// weaker one.
pub proof fn lemma_pool_grew_weaken<T: NucleusObject>(a: &ObjectPool<T>, b: &ObjectPool<T>, ids: Seq<ObjectId>,
    m1: spec_fn(int, T) -> bool, m2: spec_fn(int, T) -> bool)
    requires
        pool_grew(a, b, ids, m1),
        forall|j: int, x: T| 0 <= j < ids.len() && #[trigger] m1(j, x) ==> m2(j, x),
    ensures
        pool_grew(a, b, ids, m2),
{
    assert forall|j: int| 0 <= j < ids.len() implies (b.live(#[trigger] ids[j]) matches Some(x) && m2(j, x)) by {
        let x = b.live(ids[j])->Some_0;
        assert(m1(j, x));
    }
}

impl<T: NucleusObject> ObjectPool<T> {
    /// Number of slots that can take an allocation.
    pub open spec fn free_slots(&self) -> int {
        count_where(self.meta(), |m: SlotMeta| meta_free(m), self.capacity())
    }

    proof fn lemma_first_free_none(&self, k: int)
        requires
            self.wf(),
            0 <= k,
            self.first_free_from(k) is None,
        ensures
            forall|j: int| k <= j < self.capacity()
                ==> !self.slot_free(#[trigger] ring_index(self.next_free(), j, self.capacity())),
        decreases self.capacity() - k,
    {
        if k < self.capacity() {
            self.lemma_first_free_none(k + 1);
        }
    }

    /// Next-fit finds a slot exactly when some slot is allocatable; taking
    /// it leaves one allocatable slot fewer.
    pub proof fn lemma_next_fit_free_slots(&self)
        requires
            self.wf(),
        ensures
            0 <= self.free_slots() <= self.capacity(),
            self.next_fit() is None <==> self.free_slots() == 0,
            self.next_fit() matches Some(s) ==> 0 <= s < self.capacity() && self.slot_free(s)
                && count_where(self.meta().update(s, SlotMeta { state: SlotState::Live,
                    generation: (self.meta()[s].generation + 1) as u32 }),
                    |m: SlotMeta| meta_free(m), self.capacity()) == self.free_slots() - 1,
    {
        let cap = self.capacity();
        let p = |m: SlotMeta| meta_free(m);
        lemma_count_bounds(self.meta(), p, cap);
        match self.next_fit() {
            None => {
                self.lemma_first_free_none(0);
                let nf = self.next_free();
                assert forall|s: int| 0 <= s < cap implies !p(#[trigger] self.meta()[s]) by {
                    let j = if s >= nf { s - nf } else { s + cap - nf };
                    assert(ring_index(nf, j, cap) == s);
                }
                lemma_count_none(self.meta(), p, cap);
            },
            Some(s) => {
                self.lemma_first_free_sound(0);
                let m = SlotMeta { state: SlotState::Live, generation: (self.meta()[s].generation + 1) as u32 };
                lemma_count_update(self.meta(), p, cap, s, m);
                lemma_count_bounds(self.meta().update(s, m), p, cap);
            },
        }
    }

    /// Pool evolution composes.
    pub proof fn lemma_evolves_trans(&self, b: &ObjectPool<T>, c: &ObjectPool<T>)
        requires
            self.evolves_to(b),
            b.evolves_to(c),
        ensures
            self.evolves_to(c),
    {
        assert forall|s: int| 0 <= s < MAX_POOL_SLOTS && (#[trigger] c.meta()[s]).state == SlotState::Live
            && self.meta()[s].state != SlotState::Live implies c.meta()[s].generation > self.meta()[s].generation by {
            assert(c.meta()[s].generation >= b.meta()[s].generation);
            assert(b.meta()[s].generation >= self.meta()[s].generation);
        }
    }

    /// Allocate one object per initial value, in order, each by next-fit.
    /// When fewer slots are allocatable than values are given, the objects
    /// allocated so far are released again and `PoolExhausted` is returned:
    /// the pool then holds the same objects as before, though the
    /// generations of the briefly used slots have advanced.
    pub fn allocate_run(&mut self, inits: Vec<T>) -> (r: Result<Vec<ObjectId>, CapError>)
        requires
            old(self).wf(),
            forall|j: int| 0 <= j < inits.len() ==> (#[trigger] inits@[j]).inv(),
        ensures
            final(self).wf(),
            old(self).evolves_to(final(self)),
            r is Err <==> old(self).free_slots() < inits.len(),
            r is Err ==> r == Err::<Vec<ObjectId>, CapError>(CapError::PoolExhausted)
                && final(self).objects() == old(self).objects()
                && final(self).spec_len() == old(self).spec_len(),
            r matches Ok(ids) ==> ids.len() == inits.len()
                && ids@ == old(self).next_run(inits.len() as nat)
                && pool_grew(old(self), final(self), ids@, |j: int, x: T| x == inits@[j]),
    {
        let ghost orig = inits@;
        let ghost start = *self;
        let n = inits.len();
        let mut inits = inits;
        let mut ids: Vec<ObjectId> = Vec::new();
        let mut exhausted = false;
        proof {
            self.lemma_next_fit_free_slots();
            assert(ids@ + self.next_run(n as nat) =~= start.next_run(n as nat));
        }
        while !exhausted && ids.len() < n
            invariant
                self.wf(),
                start.wf(),
                start.evolves_to(self),
                n == orig.len(),
                ids.len() <= n,
                !exhausted ==> inits@ == orig.subrange(ids.len() as int, n as int),
                !exhausted ==> ids@ + self.next_run((n - ids.len()) as nat) == start.next_run(n as nat),
                exhausted ==> start.free_slots() == ids.len() && ids.len() < n,
                forall|j: int| 0 <= j < orig.len() ==> (#[trigger] orig[j]).inv(),
                self.free_slots() == start.free_slots() - ids.len(),
                self.tag() == start.tag(),
                self.capacity() == start.capacity(),
                self.spec_len() == start.spec_len() + ids.len(),
                forall|j: int| 0 <= j < ids.len() ==> {
                    &&& self.live(#[trigger] ids@[j]) == Some(orig[j])
                    &&& start.live(ids@[j]) is None
                    &&& start.objects()[ids@[j].index as int] is None
                    &&& ids@[j].pool == start.tag()
                },
                forall|j: int, k: int| 0 <= j < k < ids.len() ==> (#[trigger] ids@[j]).index != (#[trigger] ids@[k]).index,
                forall|s: int| 0 <= s < start.capacity() && !picked(ids@, 0, ids.len() as int, s)
                    ==> #[trigger] self.objects()[s] == start.objects()[s],
            decreases 2 * (n - ids.len()) + if exhausted { 0int } else { 1int },
        {
            let ghost before = *self;
            let ghost k = ids.len() as int;
            proof {
                self.lemma_next_fit_free_slots();
                assert(inits@.len() > 0);
            }
            let init = inits.remove(0);
            assert(init == orig[k]);
            match self.allocate(init) {
                None => {
                    exhausted = true;
                },
                Some(id) => {
                    let ghost prev = ids@;
                    let ghost s = id.index as int;
                    proof {
                        before.lemma_evolves_trans(self, self);
                        start.lemma_evolves_trans(&before, self);
                        assert(before.slot_free(s));
                        assert forall|j: int| 0 <= j < k implies prev[j].index != s by {
                            assert(before.live(prev[j]) is Some);
                        }
                        assert(!picked(prev, 0, k, s)) by {
                            if picked(prev, 0, k, s) {
                                let j = choose|j: int| 0 <= j < k && (#[trigger] prev[j]).index == s;
                                assert(prev[j].index != s);
                            }
                        }
                        assert(before.objects()[s] == start.objects()[s]);
                        assert(start.meta()[s].generation <= before.meta()[s].generation);
                    }
                    ids.push(id);
                    proof {
                        before.lemma_first_free_scan(0);
                        let rest = self.next_run((n - ids.len()) as nat);
                        assert(before.next_run((n - k) as nat) == seq![id] + rest);
                        assert(ids@ + rest =~= prev + (seq![id] + rest));
                        assert forall|j: int| 0 <= j < ids.len() implies {
                            &&& self.live(#[trigger] ids@[j]) == Some(orig[j])
                            &&& start.live(ids@[j]) is None
                            &&& start.objects()[ids@[j].index as int] is None
                            &&& ids@[j].pool == start.tag()
                        } by {
                            if j < k {
                                assert(ids@[j] == prev[j]);
                                assert(prev[j].index != s);
                            }
                        }
                        assert forall|j: int, m: int| 0 <= j < m < ids.len()
                            implies (#[trigger] ids@[j]).index != (#[trigger] ids@[m]).index by {
                            assert(ids@[j] == prev[j]);
                            if m < k {
                                assert(ids@[m] == prev[m]);
                            }
                        }
                        assert forall|q: int| 0 <= q < start.capacity() && !picked(ids@, 0, ids.len() as int, q)
                            implies #[trigger] self.objects()[q] == start.objects()[q] by {
                            assert(q != s) by {
                                if q == s {
                                    assert(ids@[k].index == q);
                                }
                            }
                            assert(!picked(prev, 0, k, q)) by {
                                if picked(prev, 0, k, q) {
                                    let j = choose|j: int| 0 <= j < k && (#[trigger] prev[j]).index == q;
                                    assert(ids@[j] == prev[j]);
                                }
                            }
                            assert(before.objects()[q] == start.objects()[q]);
                        }
                    }
                },
            }
        }
        if exhausted {
            // Too few slots: release what this run took.
            self.release_run(&ids, Ghost(start), Ghost(orig));
            return Err(CapError::PoolExhausted);
        }
        proof {
            self.lemma_next_fit_free_slots();
            assert(ids@ + self.next_run(0) =~= ids@);
        }
        Ok(ids)
    }

    /// Release the objects a partial run allocated, restoring the pool's
    /// contents.
    fn release_run(&mut self, ids: &Vec<ObjectId>, Ghost(start): Ghost<ObjectPool<T>>, Ghost(orig): Ghost<Seq<T>>)
        requires
            old(self).wf(),
            start.wf(),
            start.evolves_to(old(self)),
            ids.len() <= orig.len(),
            old(self).tag() == start.tag(),
            old(self).capacity() == start.capacity(),
            old(self).spec_len() == start.spec_len() + ids.len(),
            forall|j: int| 0 <= j < ids.len() ==> {
                &&& old(self).live(#[trigger] ids@[j]) == Some(orig[j])
                &&& start.objects()[ids@[j].index as int] is None
            },
            forall|j: int, k: int| 0 <= j < k < ids.len() ==> (#[trigger] ids@[j]).index != (#[trigger] ids@[k]).index,
            forall|s: int| 0 <= s < start.capacity() && !picked(ids@, 0, ids.len() as int, s)
                ==> #[trigger] old(self).objects()[s] == start.objects()[s],
        ensures
            final(self).wf(),
            start.evolves_to(final(self)),
            final(self).objects() == start.objects(),
            final(self).spec_len() == start.spec_len(),
    {
        let mut i: usize = 0;
        while i < ids.len()
            invariant
                self.wf(),
                start.wf(),
                start.evolves_to(self),
                i <= ids.len(),
                ids.len() <= orig.len(),
                self.tag() == start.tag(),
                self.capacity() == start.capacity(),
                self.spec_len() == start.spec_len() + ids.len() - i,
                forall|j: int| i <= j < ids.len() ==> {
                    &&& self.live(#[trigger] ids@[j]) == Some(orig[j])
                    &&& start.objects()[ids@[j].index as int] is None
                },
                forall|j: int, k: int| 0 <= j < k < ids.len() ==> (#[trigger] ids@[j]).index != (#[trigger] ids@[k]).index,
                forall|s: int| 0 <= s < start.capacity() && !picked(ids@, i as int, ids.len() as int, s)
                    ==> #[trigger] self.objects()[s] == start.objects()[s],
                self.objects().len() == start.objects().len(),
            decreases ids.len() - i,
        {
            let ghost before = *self;
            let id = ids[i];
            let _ = self.deallocate(id);
            proof {
                start.lemma_evolves_trans(&before, self);
                let s = id.index as int;
                assert forall|j: int| i + 1 <= j < ids.len() implies {
                    &&& self.live(#[trigger] ids@[j]) == Some(orig[j])
                    &&& start.objects()[ids@[j].index as int] is None
                } by {
                    assert(ids@[j].index != s);
                }
                assert forall|q: int| 0 <= q < start.capacity() && !picked(ids@, i + 1, ids.len() as int, q)
                    implies #[trigger] self.objects()[q] == start.objects()[q] by {
                    if q != s {
                        if picked(ids@, i as int, ids.len() as int, q) {
                            let j = choose|j: int| i <= j < ids.len() && (#[trigger] ids@[j]).index == q;
                            assert(j != i);
                        }
                    }
                }
            }
            i = i + 1;
        }
        proof {
            assert(self.objects() =~= start.objects());
        }
    }
}

/// A fresh metadata array has no live slots.
proof fn lemma_live_count_zero(meta: Seq<SlotMeta>, n: int)
    requires
        0 <= n <= meta.len(),
        forall|s: int| 0 <= s < meta.len() ==> #[trigger] meta[s].state == SlotState::Free,
    ensures
        live_count(meta, n) == 0,
    decreases n,
{
    if n > 0 {
        lemma_live_count_zero(meta, n - 1);
    }
}

/// A deallocated identity never resolves again, even after its slot is
/// reused: once a pool has moved a slot past an identity's generation (or
/// freed it at that generation), every later pool state rejects it.
pub open spec fn identity_is_stale<T: NucleusObject>(pool: &ObjectPool<T>, id: ObjectId) -> bool {
    &&& (id.index as int) < MAX_POOL_SLOTS
    &&& (pool.meta()[id.index as int].generation > id.generation
        || (pool.meta()[id.index as int].generation == id.generation
            && pool.meta()[id.index as int].state != SlotState::Live))
}

/// Staleness survives every pool operation, and a stale identity never
/// validates.
pub proof fn lemma_stale_identity_stays_stale<T: NucleusObject>(a: &ObjectPool<T>, b: &ObjectPool<T>, id: ObjectId)
    requires
        a.wf(),
        b.wf(),
        a.evolves_to(b),
        identity_is_stale(a, id),
    ensures
        identity_is_stale(b, id),
        b.live(id) is None,
{
    let s = id.index as int;
    assert(b.meta()[s].generation >= a.meta()[s].generation);
}

} // verus!
