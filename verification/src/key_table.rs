//! Capability tables.
//!
//! A `KeyTable` is a variable-size carved object: a header followed by
//! `2^size_bits` entries and `2^size_bits` retained per-slot incarnation
//! counters. Keys name a slot by a table-relative address — the table's
//! guard packed above the slot index — plus the incarnation the slot had
//! when the key was minted. Installing into a slot advances its incarnation,
//! so keys for earlier occupants never resolve again; an exhausted slot
//! (incarnation `u32::MAX`) is never reused.

use vstd::prelude::*;
use crate::error::{CapError, InconsistencyReason, InvalidKeyReason};
use crate::key::{guard_fits, lemma_packed_address_unpacks, packed_address, DomainId, KeySlot, RawKey};
use crate::key_entry::{KeyEntry, KeyPayload, RegionPayload, FramePayload};
use crate::object_type::ObjectType;
use crate::access::ObjectId;
use crate::ring::{count_where, lemma_count_bounds, lemma_count_none, lemma_count_update};

verus! {

/// A capability table.
pub struct KeyTable {
    /// Domain that owns this table.
    owner: DomainId,
    /// Number of valid entries.
    count: u32,
    /// Capacity exponent: the table holds `2^size_bits` entries.
    size_bits: u8,
    entries: Vec<KeyEntry>,
    incarnations: Vec<u32>,
}

/// The error payload of a failed installation: the rejection reason plus the
/// submitted entry, returned so ownership is preserved on failure.
#[derive(Clone, Copy, Debug, PartialEq, Eq, Structural)]
pub struct InsertError {
    pub error: CapError,
    pub entry: KeyEntry,
}

/// The caller's own table for one invocation: its kernel address and the
/// guard its keys carry.
#[derive(Clone, Copy, Debug, PartialEq, Eq, Structural)]
pub struct CallerTable {
    /// Kernel address of the caller's carved table.
    pub addr: u64,
    /// The table's guard, from its self-table capability.
    pub guard: u32,
}

/// Whether an entry names a capability.
pub open spec fn entry_valid(e: KeyEntry) -> bool {
    e.spec_is_valid()
}

/// The mask selecting the slot-index bits of a `width`-bit table.
pub open spec fn index_mask(width: u32) -> u32 {
    ((1u32 << width) - 1) as u32
}

/// `InvalidKey` for operand zero.
pub open spec fn invalid_key(key: RawKey, reason: InvalidKeyReason) -> CapError {
    CapError::InvalidKey { key, reason, operand: 0 }
}

/// `InconsistentKey` for operand zero.
pub open spec fn inconsistent_key(key: RawKey, reason: InconsistencyReason) -> CapError {
    CapError::InconsistentKey { key, reason, operand: 0 }
}

/// A table's capacity in entries for capacity exponent `size_bits`.
pub open spec fn spec_capacity_for(size_bits: u8) -> int {
    vstd::arithmetic::power2::pow2(size_bits as nat) as int
}

/// Full carve size: header, entries and counters, rounded up to 32 bytes.
pub open spec fn spec_carve_size(size_bits: u8) -> int {
    ((KeyTable::HEADER_SIZE as int + spec_capacity_for(size_bits) * 36 + 31) / 32) * 32
}

/// Per-slot incarnations only move forward from `a` to `b`.
pub open spec fn incarnations_advanced(a: Seq<u32>, b: Seq<u32>) -> bool {
    &&& a.len() == b.len()
    &&& forall|j: int| 0 <= j < a.len() ==> a[j] <= #[trigger] b[j]
}

/// The abstract state of a capability table: its owner, capacity exponent,
/// entries and per-slot incarnations.
pub struct KeyTableView {
    pub owner: DomainId,
    pub size_bits: u8,
    pub entries: Seq<KeyEntry>,
    pub incarnations: Seq<u32>,
}

impl View for KeyTable {
    type V = KeyTableView;

    open spec fn view(&self) -> KeyTableView {
        KeyTableView {
            owner: self.spec_owner(),
            size_bits: self.spec_size_bits(),
            entries: self.entries(),
            incarnations: self.incarnations(),
        }
    }
}

/// The outcome of validating `key` against a table with `guard`, in the
/// canonical precedence: zero incarnation, guard, range, never issued,
/// stale incarnation, removed capability. Success names the slot.
pub open spec fn key_check_in(v: KeyTableView, key: RawKey, guard: u32) -> Result<int, CapError> {
    let width = v.size_bits as u32;
    let address = key.spec_slot().0;
    let idx = (address & index_mask(width)) as int;
    if key.spec_incarnation() == 0 {
        Err(invalid_key(key, InvalidKeyReason::ZeroIncarnation))
    } else if address >> width != guard {
        Err(invalid_key(key, InvalidKeyReason::GuardMismatch))
    } else if idx >= spec_capacity_for(v.size_bits) {
        Err(invalid_key(key, InvalidKeyReason::SlotOutOfRange))
    } else if v.incarnations[idx] == 0 {
        Err(invalid_key(key, InvalidKeyReason::NeverIssued))
    } else if v.incarnations[idx] != key.spec_incarnation() {
        Err(inconsistent_key(key, InconsistencyReason::SlotIncarnationMismatch))
    } else if !v.entries[idx].spec_is_valid() {
        Err(inconsistent_key(key, InconsistencyReason::CapabilityInvalidated))
    } else {
        Ok(idx)
    }
}

/// The outcome of installing an entry at bare index `slot` of a table:
/// range, null entry, vacancy, incarnation capacity. Success names the
/// slot.
pub open spec fn insert_check_in(v: KeyTableView, slot: KeySlot, entry: KeyEntry) -> Result<int, CapError> {
    if slot.0 >= spec_capacity_for(v.size_bits) {
        Err(CapError::InvalidSlot(slot))
    } else if !entry.spec_is_valid() {
        Err(CapError::NullCapability)
    } else if v.entries[slot.0 as int].spec_is_valid() {
        Err(CapError::SlotOccupied(slot))
    } else if v.incarnations[slot.0 as int] == u32::MAX {
        Err(CapError::KeySlotExhausted(slot))
    } else {
        Ok(slot.0 as int)
    }
}

/// A table after installing `entry` at slot `i`: the slot's incarnation
/// advances.
pub open spec fn installed(v: KeyTableView, i: int, entry: KeyEntry) -> KeyTableView {
    KeyTableView {
        entries: v.entries.update(i, entry),
        incarnations: v.incarnations.update(i, (v.incarnations[i] + 1) as u32),
        ..v
    }
}

/// The key an installation at slot `i` under `guard` returns.
pub open spec fn installed_key(v: KeyTableView, i: int, guard: u32) -> RawKey {
    RawKey {
        slot: KeySlot(packed_address(guard, v.size_bits, i as u32)),
        incarnation: (v.incarnations[i] + 1) as u32,
    }
}

/// A table after removing the entry at slot `i`: its incarnation stays.
pub open spec fn removed(v: KeyTableView, i: int) -> KeyTableView {
    KeyTableView { entries: v.entries.update(i, KeyEntry::null_spec()), ..v }
}

/// A table after overwriting the entry at slot `i` in place.
pub open spec fn replaced(v: KeyTableView, i: int, entry: KeyEntry) -> KeyTableView {
    KeyTableView { entries: v.entries.update(i, entry), ..v }
}

/// A table state whose entry and incarnation arrays have its capacity.
pub open spec fn view_sized(v: KeyTableView) -> bool {
    &&& v.entries.len() == spec_capacity_for(v.size_bits)
    &&& v.incarnations.len() == spec_capacity_for(v.size_bits)
}

/// Whether a valid entry may be installed at bare index `slot`: range,
/// vacancy, incarnation capacity.
pub open spec fn vacancy_check(v: KeyTableView, slot: KeySlot) -> Result<(), CapError> {
    if slot.0 >= spec_capacity_for(v.size_bits) {
        Err(CapError::InvalidSlot(slot))
    } else if v.entries[slot.0 as int].spec_is_valid() {
        Err(CapError::SlotOccupied(slot))
    } else if v.incarnations[slot.0 as int] == u32::MAX {
        Err(CapError::KeySlotExhausted(slot))
    } else {
        Ok(())
    }
}

/// Whether the run of `count` slots from bare index `first` can take valid
/// entries, checked from offset `i` on in slot order: the first slot
/// number past `u32::MAX` is an invalid operation, the first slot that
/// cannot take an entry reports why.
pub open spec fn run_check(v: KeyTableView, first: u32, count: u32, i: int) -> Result<(), CapError>
    decreases count - i,
{
    if i >= count {
        Ok(())
    } else if first + i > u32::MAX {
        Err(CapError::InvalidOperation)
    } else {
        match vacancy_check(v, KeySlot((first + i) as u32)) {
            Err(e) => Err(e),
            Ok(()) => run_check(v, first, count, i + 1),
        }
    }
}

/// A table after installing `es` into consecutive slots from bare index
/// `first`: each of those slots holds its entry under an advanced
/// incarnation.
pub open spec fn installed_run(v: KeyTableView, first: int, es: Seq<KeyEntry>) -> KeyTableView {
    KeyTableView {
        entries: Seq::new(v.entries.len(), |j: int|
            if first <= j < first + es.len() { es[j - first] } else { v.entries[j] }),
        incarnations: Seq::new(v.incarnations.len(), |j: int|
            if first <= j < first + es.len() { (v.incarnations[j] + 1) as u32 } else { v.incarnations[j] }),
        ..v
    }
}

/// A freshly carved table: every entry null, every incarnation zero.
pub open spec fn fresh_view(owner: DomainId, size_bits: u8) -> KeyTableView {
    KeyTableView {
        owner,
        size_bits,
        entries: Seq::new(spec_capacity_for(size_bits) as nat, |i: int| KeyEntry::null_spec()),
        incarnations: Seq::new(spec_capacity_for(size_bits) as nat, |i: int| 0u32),
    }
}

/// A run check that passes from offset `i` covers every later slot.
pub proof fn lemma_run_check_ok(v: KeyTableView, first: u32, count: u32, i: int, j: int)
    requires
        0 <= i <= j < count,
        run_check(v, first, count, i) is Ok,
    ensures
        first + j <= u32::MAX,
        vacancy_check(v, KeySlot((first + j) as u32)) is Ok,
    decreases j - i,
{
    if i < j {
        lemma_run_check_ok(v, first, count, i + 1, j);
    }
}

/// A key validates the same way in two tables that agree on the slot it
/// selects.
pub proof fn lemma_key_check_local(a: KeyTableView, b: KeyTableView, key: RawKey, guard: u32)
    requires
        a.size_bits == b.size_bits,
        a.entries.len() == b.entries.len(),
        a.incarnations.len() == b.incarnations.len(),
        ({
            let idx = (key.spec_slot().0 & index_mask(a.size_bits as u32)) as int;
            idx < spec_capacity_for(a.size_bits) ==> a.entries[idx] == b.entries[idx]
                && a.incarnations[idx] == b.incarnations[idx]
        }),
    ensures
        key_check_in(a, key, guard) == key_check_in(b, key, guard),
{
}

/// Installing a run that the run check cleared leaves every key that
/// resolved before resolving to the same slot, whose entry is unchanged.
pub proof fn lemma_run_keeps_resolved(v: KeyTableView, first: u32, es: Seq<KeyEntry>, key: RawKey, guard: u32, ui: int)
    requires
        es.len() <= u32::MAX,
        v.entries.len() == spec_capacity_for(v.size_bits),
        v.incarnations.len() == spec_capacity_for(v.size_bits),
        run_check(v, first, es.len() as u32, 0) is Ok,
        key_check_in(v, key, guard) == Ok::<int, CapError>(ui),
    ensures
        key_check_in(installed_run(v, first as int, es), key, guard) == Ok::<int, CapError>(ui),
        installed_run(v, first as int, es).entries[ui] == v.entries[ui],
{
    let w = installed_run(v, first as int, es);
    if first <= ui < first + es.len() {
        lemma_run_check_ok(v, first, es.len() as u32, 0, ui - first);
    }
    lemma_key_check_local(v, w, key, guard);
}

/// The capacity of a table, as the 32-bit shift that builds its index mask.
proof fn lemma_capacity_is_shift(size_bits: u8)
    requires
        size_bits <= KeyTable::MAX_SIZE_BITS,
    ensures
        (1u32 << (size_bits as u32)) as int == spec_capacity_for(size_bits),
{
    vstd::bits::lemma_u32_pow2_no_overflow(size_bits as nat);
    vstd::bits::lemma_u32_shl_is_mul(1, size_bits as u32);
}

impl KeyTable {
    /// Header size in bytes; the entry array starts at this offset within
    /// the carve.
    pub const HEADER_SIZE: usize = 32;
    /// Capacity-exponent bounds: a table holds `2^size_bits` entries with
    /// `size_bits` from 1 to 20.
    pub const MIN_SIZE_BITS: u8 = 1;
    pub const MAX_SIZE_BITS: u8 = 20;

    pub closed spec fn entries(&self) -> Seq<KeyEntry> {
        self.entries@
    }

    pub closed spec fn incarnations(&self) -> Seq<u32> {
        self.incarnations@
    }

    pub closed spec fn spec_owner(&self) -> DomainId {
        self.owner
    }

    pub closed spec fn spec_size_bits(&self) -> u8 {
        self.size_bits
    }

    pub closed spec fn spec_len(&self) -> int {
        self.count as int
    }

    /// The table's capacity in entries.
    pub open spec fn spec_capacity(&self) -> int {
        spec_capacity_for(self.spec_size_bits())
    }

    /// Consistency: capacity exponent in bounds, arrays sized to the
    /// capacity, well-formed entries, and the entry count matching the
    /// valid entries.
    pub open spec fn wf(&self) -> bool {
        &&& KeyTable::MIN_SIZE_BITS <= self.spec_size_bits() <= KeyTable::MAX_SIZE_BITS
        &&& self.entries().len() == self.spec_capacity()
        &&& self.incarnations().len() == self.spec_capacity()
        &&& forall|i: int| 0 <= i < self.spec_capacity() ==> (#[trigger] self.entries()[i]).wf()
        &&& self.spec_len() == count_where(self.entries(), |e: KeyEntry| entry_valid(e), self.spec_capacity())
    }

    /// The outcome of validating `key` against this table with `guard`, in
    /// the canonical precedence: zero incarnation, guard, range, never
    /// issued, stale incarnation, removed capability.
    pub open spec fn key_check(&self, key: RawKey, guard: u32) -> Result<int, CapError> {
        key_check_in(self@, key, guard)
    }

    /// The outcome of installing a valid-or-null entry at bare index `slot`:
    /// range, null entry, vacancy, incarnation capacity.
    pub open spec fn insert_check(&self, slot: KeySlot, entry: KeyEntry) -> Result<int, CapError> {
        insert_check_in(self@, slot, entry)
    }

    /// The slot index a key's address selects in this table.
    pub open spec fn slot_of(&self, key: RawKey) -> int {
        (key.spec_slot().0 & index_mask(self.spec_size_bits() as u32)) as int
    }

    /// A key that packs a fitting guard above an occupied slot's index and
    /// carries that slot's current incarnation resolves to that slot.
    pub proof fn lemma_current_key_resolves(&self, key: RawKey, guard: u32, i: int)
        requires
            self.wf(),
            0 <= i < self.spec_capacity(),
            guard_fits(guard, self.spec_size_bits()),
            key.spec_slot().0 == packed_address(guard, self.spec_size_bits(), i as u32),
            key.spec_incarnation() == self.incarnations()[i],
            self.incarnations()[i] != 0,
            self.entries()[i].spec_is_valid(),
        ensures
            self.key_check(key, guard) == Ok::<int, CapError>(i),
    {
        lemma_capacity_is_shift(self.spec_size_bits());
        lemma_packed_address_unpacks(guard, self.spec_size_bits() as u32, i as u32);
    }

    /// What a lookup gives back of an installation: once `insert` has put
    /// `entry` into slot `slot`, the key it returned, looked up with the
    /// same guard, names that slot and finds that entry.
    pub proof fn lemma_lookup_finds_installed(&self, after: KeyTable, slot: KeySlot, entry: KeyEntry, guard: u32)
        requires
            self.wf(),
            after.wf(),
            self.insert_check(slot, entry) is Ok,
            after@ == installed(self@, slot.0 as int, entry),
            guard_fits(guard, self.spec_size_bits()),
        ensures
            after.key_check(installed_key(self@, slot.0 as int, guard), guard) == Ok::<int, CapError>(slot.0 as int),
            after.entries()[slot.0 as int] == entry,
    {
        let i = slot.0 as int;
        assert(after.entries() == self.entries().update(i, entry));
        assert(after.incarnations() == self.incarnations().update(i, (self.incarnations()[i] + 1) as u32));
        after.lemma_current_key_resolves(installed_key(self@, i, guard), guard, i);
    }

    /// Once a slot's incarnation has moved past a key's, the key never
    /// resolves again: not in this table, nor in any later one whose
    /// incarnations only moved forward.
    pub proof fn lemma_stale_key_stays_rejected(&self, later: KeyTable, key: RawKey, guard: u32)
        requires
            self.wf(),
            later.wf(),
            later.spec_size_bits() == self.spec_size_bits(),
            incarnations_advanced(self.incarnations(), later.incarnations()),
            self.slot_of(key) < self.spec_capacity() ==> key.spec_incarnation() < self.incarnations()[self.slot_of(key)],
        ensures
            self.key_check(key, guard) is Err,
            later.key_check(key, guard) is Err,
    {
        let i = self.slot_of(key);
        if i < self.spec_capacity() {
            assert(self.incarnations()[i] <= later.incarnations()[i]);
        }
    }

    /// Number of entries of a table carved with `size_bits`.
    pub fn capacity_for(size_bits: u8) -> (r: usize)
        requires
            size_bits < usize::BITS,
        ensures
            r == spec_capacity_for(size_bits),
    {
        proof {
            crate::key_entry::lemma_shl_is_pow2(size_bits as usize);
        }
        1usize << (size_bits as usize)
    }

    /// Full carve size of a table carved with `size_bits`: the header, then
    /// `2^size_bits` entries and incarnation counters, rounded up to the
    /// 32-byte entry alignment.
    pub fn carve_size(size_bits: u8) -> (r: usize)
        requires
            size_bits <= KeyTable::MAX_SIZE_BITS,
        ensures
            r == spec_carve_size(size_bits),
    {
        let entries = Self::capacity_for(size_bits);
        proof {
            if size_bits < 20 {
                vstd::arithmetic::power2::lemma_pow2_strictly_increases(size_bits as nat, 20);
            }
            vstd::arithmetic::power2::lemma2_to64();
        }
        assert(entries <= 1048576);
        // each slot costs a 32-byte entry plus a 4-byte incarnation counter
        let total = Self::HEADER_SIZE + entries * 36;
        let t = total + 31;
        assert(t & !31usize == t - t % 32) by (bit_vector);
        t & !31usize
    }

    /// The table's capacity in entries.
    pub fn capacity(&self) -> (r: usize)
        requires
            self.wf(),
        ensures
            r == self.spec_capacity(),
    {
        Self::capacity_for(self.size_bits)
    }

    /// The table's capacity exponent.
    pub fn size_bits(&self) -> (r: u8)
        ensures
            r == self.spec_size_bits(),
    {
        self.size_bits
    }

    /// A freshly carved table: the header written and every entry null with
    /// a zero incarnation counter.
    pub fn initialize(owner: DomainId, size_bits: u8) -> (r: KeyTable)
        requires
            KeyTable::MIN_SIZE_BITS <= size_bits <= KeyTable::MAX_SIZE_BITS,
        ensures
            r.wf(),
            r.spec_owner() == owner,
            r.spec_size_bits() == size_bits,
            r.spec_len() == 0,
            forall|i: int| 0 <= i < r.spec_capacity() ==> #[trigger] r.entries()[i] == KeyEntry::null_spec()
                && r.incarnations()[i] == 0,
            r@ == fresh_view(owner, size_bits),
    {
        let capacity = Self::capacity_for(size_bits);
        let mut entries: Vec<KeyEntry> = Vec::new();
        let mut incarnations: Vec<u32> = Vec::new();
        while entries.len() < capacity
            invariant
                entries.len() == incarnations.len(),
                entries.len() <= capacity,
                forall|i: int| 0 <= i < entries.len() ==> #[trigger] entries@[i] == KeyEntry::null_spec()
                    && incarnations@[i] == 0,
            decreases capacity - entries.len(),
        {
            entries.push(KeyEntry::null());
            incarnations.push(0);
        }
        let r = KeyTable { owner, count: 0, size_bits, entries, incarnations };
        proof {
            lemma_count_none(r.entries(), |e: KeyEntry| entry_valid(e), r.spec_capacity());
            assert(r.entries() =~= fresh_view(owner, size_bits).entries);
            assert forall|i: int| 0 <= i < r.spec_capacity() implies r.incarnations()[i] == 0 by {
                assert(r.entries()[i] == KeyEntry::null_spec());
            }
            assert(r.incarnations() =~= fresh_view(owner, size_bits).incarnations);
        }
        r
    }

    /// The entry at slot `index`.
    pub fn entry(&self, index: usize) -> (r: &KeyEntry)
        requires
            self.wf(),
            index < self.spec_capacity(),
        ensures
            *r == self.entries()[index as int],
    {
        &self.entries[index]
    }

    /// The retained incarnation counter of slot `index`.
    pub fn incarnation_of(&self, index: usize) -> (r: u32)
        requires
            self.wf(),
            index < self.spec_capacity(),
        ensures
            r == self.incarnations()[index as int],
    {
        self.incarnations[index]
    }

    /// Number of valid entries.
    pub fn len(&self) -> (r: usize)
        ensures
            r == self.spec_len(),
    {
        self.count as usize
    }

    /// The domain that owns this table.
    pub fn owner(&self) -> (r: DomainId)
        ensures
            r == self.spec_owner(),
    {
        self.owner
    }

    /// Validate a presented key (see [`Self::key_check`]), returning the
    /// slot index it names.
    pub fn validate_key(&self, key: RawKey, guard: u32) -> (r: Result<usize, CapError>)
        requires
            self.wf(),
        ensures
            match self.key_check(key, guard) {
                Ok(i) => r == Ok::<usize, CapError>(i as usize),
                Err(e) => r == Err::<usize, CapError>(e),
            },
    {
        if key.incarnation() == 0 {
            return Err(CapError::InvalidKey { key, reason: InvalidKeyReason::ZeroIncarnation, operand: 0 });
        }
        let width = self.size_bits as u32;
        let address = key.slot().0;
        if address >> width != guard {
            return Err(CapError::InvalidKey { key, reason: InvalidKeyReason::GuardMismatch, operand: 0 });
        }
        assert(1u32 << width >= 1) by (bit_vector)
            requires
                width <= 20;
        let idx = (address & ((1u32 << width) - 1)) as usize;
        if idx >= self.capacity() {
            return Err(CapError::InvalidKey { key, reason: InvalidKeyReason::SlotOutOfRange, operand: 0 });
        }
        if self.incarnations[idx] == 0 {
            return Err(CapError::InvalidKey { key, reason: InvalidKeyReason::NeverIssued, operand: 0 });
        }
        if self.incarnations[idx] != key.incarnation() {
            return Err(CapError::InconsistentKey {
                key,
                reason: InconsistencyReason::SlotIncarnationMismatch,
                operand: 0,
            });
        }
        if !self.entries[idx].is_valid() {
            return Err(CapError::InconsistentKey {
                key,
                reason: InconsistencyReason::CapabilityInvalidated,
                operand: 0,
            });
        }
        Ok(idx)
    }

    /// Look up the capability a key names. Checks slot identity only, not
    /// the referenced object's lifetime.
    pub fn lookup(&self, key: RawKey, guard: u32) -> (r: Result<&KeyEntry, CapError>)
        requires
            self.wf(),
        ensures
            match self.key_check(key, guard) {
                Ok(i) => r == Ok::<&KeyEntry, CapError>(&self.entries()[i]),
                Err(e) => r == Err::<&KeyEntry, CapError>(e),
            },
    {
        let idx = self.validate_key(key, guard)?;
        Ok(&self.entries[idx])
    }

    /// The self-table capability at the well-known slot: its carved
    /// address, guard and capacity exponent, or `None` when that slot does
    /// not hold a `KeyTable` capability.
    pub fn self_table_capability(&self) -> (r: Option<(u64, u32, u8)>)
        requires
            self.wf(),
        ensures
            ({
                let e = self.entries()[KeySlot::SELF_KEYTABLE as int];
                if e.obj_type.0 == ObjectType::KEY_TABLE {
                    r == Some((e.table().address, e.table().guard, e.table().size_bits))
                } else {
                    r is None
                }
            }),
    {
        proof {
            vstd::arithmetic::power2::lemma_pow2_pos(self.size_bits as nat);
        }
        let idx = KeySlot::SELF_KEYTABLE as usize;
        if idx >= self.capacity() {
            return None;
        }
        let entry = &self.entries[idx];
        if entry.object_type().0 != ObjectType::KEY_TABLE {
            return None;
        }
        let address = match entry.keytable_address() {
            Ok(a) => a,
            Err(_) => { return None; },
        };
        let (guard, size_bits) = match entry.keytable_guard_and_size() {
            Ok(g) => g,
            Err(_) => { return None; },
        };
        Some((address, guard, size_bits))
    }

    /// Pre-validate that a valid entry may be installed at bare index
    /// `slot`, with the error `insert` would report for it: range, vacancy,
    /// incarnation capacity.
    pub fn check_insert(&self, slot: KeySlot) -> (r: Result<(), CapError>)
        requires
            self.wf(),
        ensures
            r == vacancy_check(self@, slot),
            slot.0 >= self.spec_capacity() ==> r == Err::<(), CapError>(CapError::InvalidSlot(slot)),
            slot.0 < self.spec_capacity() ==> {
                if self.entries()[slot.0 as int].spec_is_valid() {
                    r == Err::<(), CapError>(CapError::SlotOccupied(slot))
                } else if self.incarnations()[slot.0 as int] == u32::MAX {
                    r == Err::<(), CapError>(CapError::KeySlotExhausted(slot))
                } else {
                    r == Ok::<(), CapError>(())
                }
            },
    {
        let idx = slot.0 as usize;
        if idx >= self.capacity() {
            return Err(CapError::InvalidSlot(slot));
        }
        if self.entries[idx].is_valid() {
            return Err(CapError::SlotOccupied(slot));
        }
        if self.incarnations[idx] == u32::MAX {
            return Err(CapError::KeySlotExhausted(slot));
        }
        Ok(())
    }

    /// Advance the watermark of the validated Untyped entry at `key`: the
    /// commit step of Retype. Identity, rights, badge and incarnation are
    /// unchanged; only the region's watermark moves.
    pub fn advance_untyped_watermark(&mut self, key: RawKey, guard: u32, new_watermark: u64)
        -> (r: Result<(), CapError>)
        requires
            old(self).wf(),
            new_watermark % 16 == 0,
            new_watermark / 16 <= u32::MAX,
        ensures
            final(self).wf(),
            final(self).spec_owner() == old(self).spec_owner(),
            final(self).spec_size_bits() == old(self).spec_size_bits(),
            final(self).incarnations() == old(self).incarnations(),
            final(self).spec_len() == old(self).spec_len(),
            match old(self).key_check(key, guard) {
                Err(e) => r == Err::<(), CapError>(e) && final(self).entries() == old(self).entries(),
                Ok(i) => {
                    let e = old(self).entries()[i];
                    if e.obj_type.0 != ObjectType::UNTYPED {
                        r == Err::<(), CapError>(CapError::TypeMismatch {
                            expected: ObjectType(ObjectType::UNTYPED),
                            found: e.obj_type,
                        }) && final(self).entries() == old(self).entries()
                    } else {
                        r == Ok::<(), CapError>(()) && final(self)@ == replaced(old(self)@, i,
                            KeyEntry {
                                payload: KeyPayload::Region(RegionPayload {
                                    state: (new_watermark / 16) as u32,
                                    ..e.region()
                                }),
                                ..e
                            })
                    }
                },
            },
    {
        let idx = self.validate_key(key, guard)?;
        let mut entry = self.entries[idx];
        if entry.object_type().0 != ObjectType::UNTYPED {
            return Err(CapError::TypeMismatch { expected: ObjectType(ObjectType::UNTYPED), found: entry.object_type() });
        }
        match entry.as_untyped_mut() {
            Ok(region) => {
                region.state = (new_watermark / 16) as u32;
            },
            Err(e) => { return Err(e); },
        }
        self.store(idx, entry);
        Ok(())
    }

    /// Record a mapping on the validated Frame entry at `key`: the commit
    /// step of `Frame.Map`. Only the frame's mapping record moves.
    pub fn record_frame_mapping(&mut self, key: RawKey, guard: u32, address_space: ObjectId, vaddr: u64)
        -> (r: Result<(), CapError>)
        requires
            old(self).wf(),
        ensures
            final(self).wf(),
            final(self).spec_owner() == old(self).spec_owner(),
            final(self).spec_size_bits() == old(self).spec_size_bits(),
            final(self).incarnations() == old(self).incarnations(),
            final(self).spec_len() == old(self).spec_len(),
            match old(self).key_check(key, guard) {
                Err(e) => r == Err::<(), CapError>(e) && final(self).entries() == old(self).entries(),
                Ok(i) => {
                    let e = old(self).entries()[i];
                    if e.obj_type.0 != ObjectType::FRAME {
                        r == Err::<(), CapError>(CapError::TypeMismatch {
                            expected: ObjectType(ObjectType::FRAME),
                            found: e.obj_type,
                        }) && final(self).entries() == old(self).entries()
                    } else {
                        r == Ok::<(), CapError>(()) && final(self)@ == replaced(old(self)@, i,
                            KeyEntry {
                                payload: KeyPayload::Frame(FramePayload {
                                    as_index: address_space.index,
                                    as_generation: address_space.generation,
                                    vaddr,
                                    flags: e.frame().flags | crate::key_entry::FRAME_MAPPED,
                                    ..e.frame()
                                }),
                                ..e
                            })
                    }
                },
            },
    {
        let idx = self.validate_key(key, guard)?;
        let mut entry = self.entries[idx];
        if entry.object_type().0 != ObjectType::FRAME {
            return Err(CapError::TypeMismatch { expected: ObjectType(ObjectType::FRAME), found: entry.object_type() });
        }
        match entry.as_frame_mut() {
            Ok(frame) => frame.set_mapped(address_space, vaddr),
            Err(e) => { return Err(e); },
        }
        self.store(idx, entry);
        Ok(())
    }

    /// Clear the mapping record of the validated Frame entry at `key`: the
    /// commit step of `Frame.Unmap`.
    pub fn clear_frame_mapping(&mut self, key: RawKey, guard: u32) -> (r: Result<(), CapError>)
        requires
            old(self).wf(),
        ensures
            final(self).wf(),
            final(self).spec_owner() == old(self).spec_owner(),
            final(self).spec_size_bits() == old(self).spec_size_bits(),
            final(self).incarnations() == old(self).incarnations(),
            final(self).spec_len() == old(self).spec_len(),
            match old(self).key_check(key, guard) {
                Err(e) => r == Err::<(), CapError>(e) && final(self).entries() == old(self).entries(),
                Ok(i) => {
                    let e = old(self).entries()[i];
                    if e.obj_type.0 != ObjectType::FRAME {
                        r == Err::<(), CapError>(CapError::TypeMismatch {
                            expected: ObjectType(ObjectType::FRAME),
                            found: e.obj_type,
                        }) && final(self).entries() == old(self).entries()
                    } else {
                        r == Ok::<(), CapError>(()) && final(self)@ == replaced(old(self)@, i,
                            KeyEntry {
                                payload: KeyPayload::Frame(crate::key_entry::spec_cleared(e.frame())),
                                ..e
                            })
                    }
                },
            },
    {
        let idx = self.validate_key(key, guard)?;
        let mut entry = self.entries[idx];
        if entry.object_type().0 != ObjectType::FRAME {
            return Err(CapError::TypeMismatch { expected: ObjectType(ObjectType::FRAME), found: entry.object_type() });
        }
        match entry.as_frame_mut() {
            Ok(frame) => frame.clear_mapped(),
            Err(e) => { return Err(e); },
        }
        self.store(idx, entry);
        Ok(())
    }

    /// Overwrite a valid entry with a same-kind, still-valid replacement.
    fn store(&mut self, idx: usize, entry: KeyEntry)
        requires
            old(self).wf(),
            idx < old(self).spec_capacity(),
            old(self).entries()[idx as int].spec_is_valid(),
            entry.spec_is_valid(),
            entry.wf(),
        ensures
            final(self).wf(),
            final(self).spec_owner() == old(self).spec_owner(),
            final(self).spec_size_bits() == old(self).spec_size_bits(),
            final(self).incarnations() == old(self).incarnations(),
            final(self).spec_len() == old(self).spec_len(),
            final(self).entries() == old(self).entries().update(idx as int, entry),
    {
        proof {
            lemma_count_update(self.entries(), |e: KeyEntry| entry_valid(e), self.spec_capacity(), idx as int, entry);
        }
        self.entries.set(idx, entry);
    }

    /// Install a capability at bare index `slot`. The returned key packs
    /// `guard` above the slot index and carries the slot's advanced
    /// incarnation. On rejection (see [`Self::insert_check`]) the table is
    /// unchanged and the submitted entry is handed back.
    pub fn insert(&mut self, slot: KeySlot, entry: KeyEntry, guard: u32) -> (r: Result<RawKey, InsertError>)
        requires
            old(self).wf(),
            entry.wf(),
        ensures
            final(self).wf(),
            final(self).spec_owner() == old(self).spec_owner(),
            final(self).spec_size_bits() == old(self).spec_size_bits(),
            match old(self).insert_check(slot, entry) {
                Err(error) => r == Err::<RawKey, InsertError>(InsertError { error, entry })
                    && *final(self) == *old(self),
                Ok(i) => {
                    let next = (old(self).incarnations()[i] + 1) as u32;
                    &&& r matches Ok(key) && key.spec_slot().0 == packed_address(guard,
                        old(self).spec_size_bits(), slot.0) && key.spec_incarnation() == next
                    &&& final(self).entries() == old(self).entries().update(i, entry)
                    &&& final(self).incarnations() == old(self).incarnations().update(i, next)
                    &&& final(self).spec_len() == old(self).spec_len() + 1
                    &&& guard_fits(guard, old(self).spec_size_bits()) ==> final(self).key_check(r->Ok_0, guard)
                        == Ok::<int, CapError>(i)
                    &&& final(self)@ == installed(old(self)@, i, entry)
                    &&& r == Ok::<RawKey, InsertError>(installed_key(old(self)@, i, guard))
                },
            },
            incarnations_advanced(old(self).incarnations(), final(self).incarnations()),
    {
        let idx = slot.0 as usize;
        if idx >= self.capacity() {
            return Err(InsertError { error: CapError::InvalidSlot(slot), entry });
        }
        if !entry.is_valid() {
            return Err(InsertError { error: CapError::NullCapability, entry });
        }
        if self.entries[idx].is_valid() {
            return Err(InsertError { error: CapError::SlotOccupied(slot), entry });
        }
        if self.incarnations[idx] == u32::MAX {
            return Err(InsertError { error: CapError::KeySlotExhausted(slot), entry });
        }
        let next = self.incarnations[idx] + 1;
        proof {
            lemma_count_update(self.entries(), |e: KeyEntry| entry_valid(e), self.spec_capacity(), idx as int, entry);
            lemma_count_bounds(self.entries().update(idx as int, entry), |e: KeyEntry| entry_valid(e), self.spec_capacity());
            vstd::arithmetic::power2::lemma_pow2_strictly_increases(self.size_bits as nat, 21);
            vstd::arithmetic::power2::lemma2_to64();
        }
        self.entries.set(idx, entry);
        self.incarnations.set(idx, next);
        self.count = self.count + 1;
        let key = RawKey::from_parts(guard, self.size_bits, slot.0, next);
        proof {
            if guard_fits(guard, self.size_bits) {
                self.lemma_current_key_resolves(key, guard, idx as int);
            }
        }
        Ok(key)
    }

    /// Check that the run of `count` slots from bare index `first` can take
    /// valid entries (see [`run_check`]).
    pub fn check_run(&self, first: u32, count: u32) -> (r: Result<(), CapError>)
        requires
            self.wf(),
        ensures
            r == run_check(self@, first, count, 0),
    {
        let mut i: u32 = 0;
        while i < count
            invariant
                self.wf(),
                i <= count,
                run_check(self@, first, count, 0) == run_check(self@, first, count, i as int),
            decreases count - i,
        {
            if first as u64 + i as u64 > u32::MAX as u64 {
                return Err(CapError::InvalidOperation);
            }
            self.check_insert(KeySlot(first + i))?;
            i = i + 1;
        }
        Ok(())
    }

    /// Install `entries` into consecutive slots from bare index `first`,
    /// which the run check has cleared, returning the key of the first.
    pub fn insert_run(&mut self, first: u32, entries: &Vec<KeyEntry>, guard: u32) -> (r: RawKey)
        requires
            old(self).wf(),
            entries.len() >= 1,
            entries.len() <= u32::MAX,
            run_check(old(self)@, first, entries.len() as u32, 0) is Ok,
            forall|j: int| 0 <= j < entries.len() ==> (#[trigger] entries@[j]).wf() && entries@[j].spec_is_valid(),
        ensures
            final(self).wf(),
            final(self)@ == installed_run(old(self)@, first as int, entries@),
            r == installed_key(old(self)@, first as int, guard),
            incarnations_advanced(old(self).incarnations(), final(self).incarnations()),
    {
        let n = entries.len();
        let mut i: usize = 0;
        let mut first_key = RawKey::new(KeySlot(0), 0);
        proof {
            let v = installed_run(self@, first as int, entries@.subrange(0, 0));
            assert(v.entries =~= self@.entries);
            assert(v.incarnations =~= self@.incarnations);
        }
        while i < n
            invariant
                self.wf(),
                n == entries.len(),
                n <= u32::MAX,
                i <= n,
                run_check(old(self)@, first, n as u32, 0) is Ok,
                forall|j: int| 0 <= j < n ==> (#[trigger] entries@[j]).wf() && entries@[j].spec_is_valid(),
                self@ == installed_run(old(self)@, first as int, entries@.subrange(0, i as int)),
                i > 0 ==> first_key == installed_key(old(self)@, first as int, guard),
                incarnations_advanced(old(self).incarnations(), self.incarnations()),
            decreases n - i,
        {
            proof {
                lemma_run_check_ok(old(self)@, first, n as u32, 0, i as int);
            }
            let slot = KeySlot(first + i as u32);
            let ghost before_inc = self.incarnations();
            let key = match self.insert(slot, entries[i], guard) {
                Ok(k) => k,
                Err(_) => {
                    return first_key;
                },
            };
            proof {
                let w = installed_run(old(self)@, first as int, entries@.subrange(0, i + 1));
                assert(self@.entries =~= w.entries);
                assert(self@.incarnations =~= w.incarnations);
                assert forall|j: int| 0 <= j < old(self).incarnations().len()
                    implies old(self).incarnations()[j] <= #[trigger] self.incarnations()[j] by {
                    assert(old(self).incarnations()[j] <= before_inc[j]);
                }
            }
            if i == 0 {
                first_key = key;
            }
            i = i + 1;
        }
        proof {
            assert(entries@.subrange(0, n as int) =~= entries@);
        }
        first_key
    }

    /// Remove the capability a key names, returning it; the slot keeps its
    /// incarnation, so the key is invalidated.
    pub fn remove(&mut self, key: RawKey, guard: u32) -> (r: Result<KeyEntry, CapError>)
        requires
            old(self).wf(),
        ensures
            final(self).wf(),
            final(self).spec_owner() == old(self).spec_owner(),
            final(self).spec_size_bits() == old(self).spec_size_bits(),
            final(self).incarnations() == old(self).incarnations(),
            match old(self).key_check(key, guard) {
                Err(e) => r == Err::<KeyEntry, CapError>(e) && *final(self) == *old(self),
                Ok(i) => {
                    &&& r == Ok::<KeyEntry, CapError>(old(self).entries()[i])
                    &&& final(self).entries() == old(self).entries().update(i, KeyEntry::null_spec())
                    &&& final(self).spec_len() == old(self).spec_len() - 1
                    &&& final(self).key_check(key, guard) == Err::<int, CapError>(
                        inconsistent_key(key, InconsistencyReason::CapabilityInvalidated))
                    &&& final(self)@ == removed(old(self)@, i)
                },
            },
    {
        let idx = self.validate_key(key, guard)?;
        let entry = self.entries[idx];
        let null = KeyEntry::null();
        proof {
            lemma_count_update(self.entries(), |e: KeyEntry| entry_valid(e), self.spec_capacity(), idx as int, null);
            lemma_count_bounds(self.entries(), |e: KeyEntry| entry_valid(e), self.spec_capacity());
            lemma_count_bounds(self.entries().update(idx as int, null), |e: KeyEntry| entry_valid(e), self.spec_capacity());
        }
        self.entries.set(idx, null);
        self.count = self.count - 1;
        Ok(entry)
    }
}

} // verus!
