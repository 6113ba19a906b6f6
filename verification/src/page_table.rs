//! AArch64 translation-table descriptor mechanics over the carved tables.
//!
//! Stage 1, 4 KiB granule, 48-bit virtual addresses: every level uses 9-bit
//! indices, level 0 is the root and level 3 holds page descriptors. The
//! carved 4 KiB tables are kept in a [`PhysTables`] store keyed by physical
//! address; a descriptor names the next-level table by the output-address
//! bits [47:12].

use vstd::prelude::*;
use crate::error::CapError;
use crate::store::AddrStore;

verus! {

/// Descriptor flag bits.
pub struct Pte;

impl Pte {
    /// Valid bit.
    pub const VALID: u64 = 1;
    /// Table descriptor (levels 0-2) and page descriptor (level 3); block
    /// descriptors (levels 1-2) have this bit clear.
    pub const DESCRIPTOR: u64 = 2;
    /// Access flag.
    pub const AF: u64 = 0x400;
    /// Inner shareable.
    pub const SH_INNER: u64 = 0x300;
    /// AP[2:1] = 0b00: read/write at EL1, no EL0 access.
    pub const AP_RW_KERNEL: u64 = 0;
    /// AP[2:1] = 0b01: read/write at EL0 and EL1.
    pub const AP_RW_USER: u64 = 0x40;
    /// AP[2:1] = 0b11: read-only at EL0 and EL1.
    pub const AP_RO_USER: u64 = 0xC0;
    /// Memory attribute index 0 (normal write-back cacheable).
    pub const ATTR_NORMAL: u64 = 0;
    /// Privileged execute never.
    pub const PXN: u64 = 0x20_0000_0000_0000;
    /// Unprivileged execute never.
    pub const UXN: u64 = 0x40_0000_0000_0000;
}

/// Entries per table: 9-bit indices in a 4 KiB table.
pub const ENTRIES_PER_TABLE: usize = 512;

/// Supported virtual address width.
pub const VA_BITS: u32 = 48;

/// Output-address bits [47:12] of a descriptor.
pub const ENTRY_ADDR_MASK: u64 = 0x0000_FFFF_FFFF_F000;

/// The index `vaddr` selects in a table at walk `level`.
pub open spec fn spec_slot_index(level: u8, vaddr: u64) -> int {
    ((vaddr >> ((39 - 9 * level) as u64)) & 0x1FF) as int
}

/// A table index is below the table size.
pub proof fn lemma_slot_index_bound(level: u8, vaddr: u64)
    ensures
        0 <= spec_slot_index(level, vaddr) < 512,
{
    let shift = (39 - 9 * level) as u64;
    assert((vaddr >> shift) & 0x1FF < 512) by (bit_vector);
}

/// Index of `vaddr` in the table at walk `level` (0 = root): bits [47:39],
/// [38:30], [29:21] and [20:12] for levels 0 to 3.
pub fn slot_index(level: u8, vaddr: u64) -> (r: usize)
    requires
        level <= 4,
    ensures
        r == spec_slot_index(level, vaddr),
        r < ENTRIES_PER_TABLE,
{
    let shift: u64 = 39 - 9 * (level as u64);
    let r = (vaddr >> shift) & 0x1FF;
    assert(r < 512) by (bit_vector)
        requires
            r == (vaddr >> shift) & 0x1FF;
    r as usize
}

/// The walk level whose descriptors map a frame of `size_bits`.
pub open spec fn spec_leaf_level(size_bits: u8) -> u8 {
    if size_bits == 21 {
        2
    } else if size_bits == 30 {
        1
    } else {
        3
    }
}

/// The leaf level a frame of `size_bits` occupies: 2 MiB blocks are level 2
/// descriptors, 1 GiB blocks level 1 descriptors, and 4 KiB pages (and any
/// other size) live in level 3 tables.
pub fn leaf_level(size_bits: u8) -> (r: u8)
    ensures
        r == spec_leaf_level(size_bits),
{
    if size_bits == 21 {
        2
    } else if size_bits == 30 {
        1
    } else {
        3
    }
}

/// The descriptor installed for a frame at `frame_paddr` in a leaf table at
/// level `leaf`: a page (level 3) or block descriptor, accessed, inner
/// shareable, normal memory, reachable from EL0. `writable` selects
/// read/write over read-only; `executable` only clears the execute-never
/// bits.
pub open spec fn frame_descriptor(frame_paddr: u64, leaf: u8, writable: bool, executable: bool) -> u64 {
    let ap = if writable {
        Pte::AP_RW_USER
    } else {
        Pte::AP_RO_USER
    };
    let descriptor_bit = if leaf == 3 { Pte::DESCRIPTOR } else { 0 };
    let xn = if executable { 0 } else { Pte::PXN | Pte::UXN };
    frame_paddr | Pte::VALID | descriptor_bit | Pte::AF | Pte::SH_INNER | ap | Pte::ATTR_NORMAL | xn
}

/// A frame descriptor is valid and carries the frame's address, when the
/// address fits the descriptor's address field.
pub proof fn lemma_frame_descriptor_address(frame_paddr: u64, leaf: u8, writable: bool, executable: bool)
    requires
        frame_paddr & ENTRY_ADDR_MASK == frame_paddr,
    ensures
        frame_descriptor(frame_paddr, leaf, writable, executable) & Pte::VALID != 0,
        frame_descriptor(frame_paddr, leaf, writable, executable) & ENTRY_ADDR_MASK == frame_paddr,
{
    let ap: u64 = if writable {
        Pte::AP_RW_USER
    } else {
        Pte::AP_RO_USER
    };
    let d: u64 = if leaf == 3 { Pte::DESCRIPTOR } else { 0 };
    let xn: u64 = if executable { 0 } else { Pte::PXN | Pte::UXN };
    assert(xn == 0 || xn == 0x60_0000_0000_0000u64) by (bit_vector)
        requires
            xn == 0 || xn == (0x20_0000_0000_0000u64 | 0x40_0000_0000_0000u64);
    let e = frame_paddr | 1u64 | d | 0x400u64 | 0x300u64 | ap | 0u64 | xn;
    assert(e & 1u64 != 0 && e & 0x0000_FFFF_FFFF_F000u64 == frame_paddr) by (bit_vector)
        requires
            frame_paddr & 0x0000_FFFF_FFFF_F000u64 == frame_paddr,
            d == 0 || d == 2,
            ap == 0 || ap == 0x40 || ap == 0xC0,
            xn == 0 || xn == 0x60_0000_0000_0000u64,
            e == frame_paddr | 1u64 | d | 0x400u64 | 0x300u64 | ap | 0u64 | xn;
}

/// Access rights of a frame descriptor: user space may always read; it may
/// write exactly when the mapping is writable (access bits `0x40`, else
/// the read-only `0xC0`); and the execute-never bits are clear exactly
/// when the mapping is executable. The descriptor is valid and accessed.
pub proof fn lemma_frame_descriptor_access(frame_paddr: u64, leaf: u8, writable: bool, executable: bool)
    requires
        frame_paddr & ENTRY_ADDR_MASK == frame_paddr,
    ensures
        frame_descriptor(frame_paddr, leaf, writable, executable) & 0xC0 == (if writable { 0x40u64 } else { 0xC0u64 }),
        frame_descriptor(frame_paddr, leaf, writable, executable) & 0x60_0000_0000_0000
            == (if executable { 0u64 } else { 0x60_0000_0000_0000u64 }),
        frame_descriptor(frame_paddr, leaf, writable, executable) & 0x401 == 0x401,
{
    let e = frame_descriptor(frame_paddr, leaf, writable, executable);
    let ap: u64 = if writable { Pte::AP_RW_USER } else { Pte::AP_RO_USER };
    let d: u64 = if leaf == 3 { Pte::DESCRIPTOR } else { 0 };
    let xn: u64 = if executable { 0 } else { Pte::PXN | Pte::UXN };
    assert((0x20_0000_0000_0000u64 | 0x40_0000_0000_0000u64) == 0x60_0000_0000_0000u64) by (bit_vector);
    let wa: u64 = if writable { 0x40u64 } else { 0xC0u64 };
    let xa: u64 = if executable { 0u64 } else { 0x60_0000_0000_0000u64 };
    assert(e & 0xC0 == wa && e & 0x60_0000_0000_0000 == xa && e & 0x401 == 0x401) by (bit_vector)
        requires
            frame_paddr & 0x0000_FFFF_FFFF_F000u64 == frame_paddr,
            d == 0 || d == 2,
            (ap == 0x40 && wa == 0x40) || (ap == 0xC0 && wa == 0xC0),
            (xn == 0 && xa == 0) || (xn == 0x60_0000_0000_0000u64 && xa == 0x60_0000_0000_0000u64),
            e == frame_paddr | 1u64 | d | 0x400u64 | 0x300u64 | ap | 0u64 | xn;
}

/// Whether descriptor `e` at walk `level` maps memory directly: a valid
/// page descriptor at level 3, or a valid block descriptor at level 1 or 2.
pub open spec fn is_leaf_descriptor(e: u64, level: u8) -> bool {
    e & Pte::VALID != 0 && (level == 3 || ((level == 1 || level == 2) && e & Pte::DESCRIPTOR == 0))
}

/// See [`is_leaf_descriptor`].
pub fn leaf_descriptor(e: u64, level: u8) -> (r: bool)
    ensures
        r == is_leaf_descriptor(e, level),
{
    e & Pte::VALID != 0 && (level == 3 || ((level == 1 || level == 2) && e & Pte::DESCRIPTOR == 0))
}

/// The size exponent of the memory one leaf descriptor at `level` maps:
/// 4 KiB at level 3, 2 MiB at level 2, 1 GiB at level 1.
pub open spec fn level_span_bits(level: u8) -> u8 {
    if level == 3 {
        12
    } else if level == 2 {
        21
    } else {
        30
    }
}

/// See [`level_span_bits`].
pub fn span_bits(level: u8) -> (r: u8)
    ensures
        r == level_span_bits(level),
{
    if level == 3 {
        12
    } else if level == 2 {
        21
    } else {
        30
    }
}

/// Whether `[a, a + 2^a_bits)` and `[b, b + 2^b_bits)` share a byte.
pub open spec fn extents_overlap(a: u64, a_bits: u8, b: u64, b_bits: u8) -> bool {
    let a_end = a + vstd::arithmetic::power2::pow2(a_bits as nat);
    let b_end = b + vstd::arithmetic::power2::pow2(b_bits as nat);
    a < b_end && b < a_end
}

/// See [`extents_overlap`].
pub fn overlaps(a: u64, a_bits: u8, b: u64, b_bits: u8) -> (r: bool)
    requires
        a_bits < 64,
        b_bits < 64,
    ensures
        r == extents_overlap(a, a_bits, b, b_bits),
{
    proof {
        vstd::bits::lemma_u64_pow2_no_overflow(a_bits as nat);
        vstd::bits::lemma_u64_pow2_no_overflow(b_bits as nat);
        vstd::bits::lemma_u64_shl_is_mul(1, a_bits as u64);
        vstd::bits::lemma_u64_shl_is_mul(1, b_bits as u64);
    }
    let a_end: u128 = a as u128 + (1u64 << (a_bits as u64)) as u128;
    let b_end: u128 = b as u128 + (1u64 << (b_bits as u64)) as u128;
    (a as u128) < b_end && (b as u128) < a_end
}

/// The carved translation tables, by physical address.
pub struct PhysTables {
    store: AddrStore<Vec<u64>>,
}

impl PhysTables {
    /// The carved tables.
    pub closed spec fn tables(&self) -> Map<u64, Vec<u64>> {
        self.store@
    }

    /// Whether a table was carved at `paddr`.
    pub open spec fn has(&self, paddr: u64) -> bool {
        self.tables().contains_key(paddr)
    }

    /// Descriptor `slot` of the table at `paddr`.
    pub open spec fn entry(&self, paddr: u64, slot: int) -> u64 {
        self.tables()[paddr]@[slot]
    }

    /// Every carved table has exactly its 512 descriptors.
    pub open spec fn wf(&self) -> bool {
        &&& self.store_wf()
        &&& forall|p: u64| #[trigger] self.tables().contains_key(p) ==> self.tables()[p]@.len() == ENTRIES_PER_TABLE
    }

    pub closed spec fn store_wf(&self) -> bool {
        self.store.wf()
    }

    /// The table at `paddr` after writing `value` into `slot`.
    pub open spec fn with_entry(&self, paddr: u64, slot: int, value: u64) -> Map<u64, Seq<u64>> {
        self.contents().insert(paddr, self.contents()[paddr].update(slot, value))
    }

    /// The carved tables' descriptors.
    pub open spec fn contents(&self) -> Map<u64, Seq<u64>> {
        self.tables().map_values(|t: Vec<u64>| t@)
    }

    /// The carved tables and their descriptors, read off the contents.
    pub proof fn lemma_contents(&self)
        requires
            self.wf(),
        ensures
            forall|p: u64| #[trigger] self.has(p) == self.contents().contains_key(p),
            forall|p: u64| self.has(p) ==> (#[trigger] self.contents()[p]).len() == ENTRIES_PER_TABLE,
            forall|p: u64, i: int| self.has(p) ==> #[trigger] self.entry(p, i) == self.contents()[p][i],
    {
    }

    /// No carved tables.
    pub fn new() -> (r: PhysTables)
        ensures
            r.wf(),
            r.contents() == Map::<u64, Seq<u64>>::empty(),
    {
        let r = PhysTables { store: AddrStore::new() };
        assert(r.contents() =~= Map::<u64, Seq<u64>>::empty());
        r
    }

    /// Carve a table at `paddr`, sanitized: every descriptor zero. A table
    /// already carved there is replaced.
    pub fn carve(&mut self, paddr: u64)
        requires
            old(self).wf(),
        ensures
            final(self).wf(),
            final(self).contents() == old(self).contents().insert(paddr, Seq::new(512, |i: int| 0u64)),
    {
        let mut t: Vec<u64> = Vec::new();
        while t.len() < ENTRIES_PER_TABLE
            invariant
                t.len() <= ENTRIES_PER_TABLE,
                forall|i: int| 0 <= i < t.len() ==> #[trigger] t@[i] == 0,
            decreases ENTRIES_PER_TABLE - t.len(),
        {
            t.push(0);
        }
        self.store.insert(paddr, t);
        proof {
            assert(t@ =~= Seq::new(512, |i: int| 0u64));
            assert(self.contents() =~= old(self).contents().insert(paddr, Seq::new(512, |i: int| 0u64)));
        }
    }

    /// Descriptor `slot` of the table at `paddr`, or `None` when no table was
    /// carved there.
    pub fn read(&self, paddr: u64, slot: usize) -> (r: Option<u64>)
        requires
            self.wf(),
            slot < ENTRIES_PER_TABLE,
        ensures
            self.has(paddr) ==> r == Some(self.entry(paddr, slot as int)),
            !self.has(paddr) ==> r is None,
    {
        match self.store.get(paddr) {
            Some(t) => {
                assert(self.tables().contains_key(paddr));
                Some(t[slot])
            },
            None => None,
        }
    }

    /// Write descriptor `slot` of the carved table at `paddr`.
    fn write(&mut self, paddr: u64, slot: usize, value: u64)
        requires
            old(self).wf(),
            old(self).has(paddr),
            slot < ENTRIES_PER_TABLE,
        ensures
            final(self).wf(),
            final(self).contents() == old(self).with_entry(paddr, slot as int, value),
    {
        match self.store.get_mut(paddr) {
            Some(t) => {
                t.set(slot, value);
            },
            None => {},
        }
        proof {
            assert(self.contents() =~= old(self).with_entry(paddr, slot as int, value));
        }
    }

    /// Whether every descriptor of the table at `paddr` is zero; a table
    /// never carved holds no descriptor.
    pub fn table_is_empty(&self, paddr: u64) -> (r: bool)
        requires
            self.wf(),
        ensures
            r == (!self.has(paddr) || forall|i: int| 0 <= i < ENTRIES_PER_TABLE ==> #[trigger] self.entry(paddr, i) == 0),
    {
        match self.store.get(paddr) {
            None => true,
            Some(t) => {
                assert(self.tables().contains_key(paddr));
                let mut i: usize = 0;
                while i < ENTRIES_PER_TABLE
                    invariant
                        i <= ENTRIES_PER_TABLE,
                        t@.len() == ENTRIES_PER_TABLE,
                        t@ == self.tables()[paddr]@,
                        self.has(paddr),
                        forall|j: int| 0 <= j < i ==> #[trigger] t@[j] == 0,
                    decreases ENTRIES_PER_TABLE - i,
                {
                    if t[i] != 0 {
                        assert(self.entry(paddr, i as int) != 0);
                        return false;
                    }
                    i = i + 1;
                }
                true
            },
        }
    }

    /// Follow table descriptors selected by `vaddr` from the table at `table`
    /// (walk level `level`) down to level `leaf`, giving the leaf-level
    /// table's physical address: a vacant descriptor is a missing
    /// intermediate table, a block descriptor means the range is already
    /// mapped at a larger granularity, and an address no table was carved at
    /// is an invalid operation.
    pub open spec fn walk(&self, table: u64, vaddr: u64, level: u8, leaf: u8) -> Result<u64, CapError>
        decreases leaf - level,
    {
        if level >= leaf || leaf > 3 {
            Ok(table)
        } else if !self.has(table) {
            Err(CapError::InvalidOperation)
        } else {
            let e = self.entry(table, spec_slot_index(level, vaddr));
            if e & Pte::VALID == 0 {
                Err(CapError::MissingIntermediate { vaddr })
            } else if e & Pte::DESCRIPTOR == 0 {
                Err(CapError::AlreadyMapped)
            } else {
                self.walk(e & ENTRY_ADDR_MASK, vaddr, (level + 1) as u8, leaf)
            }
        }
    }

    /// Whether the walk for `vaddr` from the table at `table` (walk level
    /// `level`) down to level `leaf` reads descriptor `s` of the table at
    /// `t`.
    pub open spec fn walk_reads(&self, table: u64, vaddr: u64, level: u8, leaf: u8, t: u64, s: int) -> bool
        decreases leaf - level,
    {
        if level >= leaf || leaf > 3 || !self.has(table) {
            false
        } else {
            let e = self.entry(table, spec_slot_index(level, vaddr));
            ||| table == t && spec_slot_index(level, vaddr) == s
            ||| e & Pte::VALID != 0 && e & Pte::DESCRIPTOR != 0
                && self.walk_reads(e & ENTRY_ADDR_MASK, vaddr, (level + 1) as u8, leaf, t, s)
        }
    }

    /// Writing a descriptor that a walk does not read leaves the walk's
    /// outcome unchanged.
    pub proof fn lemma_walk_unread(&self, other: &PhysTables, table: u64, vaddr: u64, level: u8, leaf: u8, t: u64,
        s: int, value: u64)
        requires
            self.wf(),
            self.has(t),
            0 <= s < ENTRIES_PER_TABLE,
            other.contents() == self.with_entry(t, s, value),
            !self.walk_reads(table, vaddr, level, leaf, t, s),
        ensures
            other.walk(table, vaddr, level, leaf) == self.walk(table, vaddr, level, leaf),
        decreases leaf - level,
    {
        assert(other.tables().dom() =~= self.tables().dom()) by {
            assert(other.contents().dom() == other.tables().dom());
            assert(self.contents().dom() == self.tables().dom());
        }
        if level < leaf && leaf <= 3 && self.has(table) {
            let i = spec_slot_index(level, vaddr);
            lemma_slot_index_bound(level, vaddr);
            assert(other.has(table));
            assert(other.entry(table, i) == other.contents()[table][i]);
            assert(self.entry(table, i) == self.contents()[table][i]);
            assert(other.entry(table, i) == self.entry(table, i));
            let e = self.entry(table, i);
            if e & Pte::VALID != 0 && e & Pte::DESCRIPTOR != 0 {
                self.lemma_walk_unread(other, e & ENTRY_ADDR_MASK, vaddr, (level + 1) as u8, leaf, t, s, value);
            }
        } else if level < leaf && leaf <= 3 {
            assert(!other.has(table));
        }
    }

    /// Walk from the root at `root_paddr` to the leaf level for `size_bits`
    /// (see [`Self::walk`]).
    pub fn walk_to_leaf(&self, root_paddr: u64, vaddr: u64, size_bits: u8) -> (r: Result<u64, CapError>)
        requires
            self.wf(),
        ensures
            r == self.walk(root_paddr, vaddr, 0, spec_leaf_level(size_bits)),
    {
        let leaf = leaf_level(size_bits);
        let mut table = root_paddr;
        let mut level: u8 = 0;
        while level < leaf
            invariant
                self.wf(),
                level <= leaf <= 3,
                leaf == spec_leaf_level(size_bits),
                self.walk(root_paddr, vaddr, 0, leaf) == self.walk(table, vaddr, level, leaf),
            decreases leaf - level,
        {
            let slot = slot_index(level, vaddr);
            let entry = match self.read(table, slot) {
                Some(e) => e,
                None => {
                    return Err(CapError::InvalidOperation);
                },
            };
            if entry & Pte::VALID == 0 {
                return Err(CapError::MissingIntermediate { vaddr });
            }
            if entry & Pte::DESCRIPTOR == 0 {
                return Err(CapError::AlreadyMapped);
            }
            table = entry & ENTRY_ADDR_MASK;
            level = level + 1;
        }
        Ok(table)
    }

    /// Install a table descriptor for `child_paddr` in the parent table at
    /// `parent_paddr` (walk level `parent_level`), at the slot `vaddr`
    /// selects, which must be vacant. Returns the installed slot index.
    pub fn install_table_entry(&mut self, parent_paddr: u64, parent_level: u8, vaddr: u64, child_paddr: u64)
        -> (r: Result<u16, CapError>)
        requires
            old(self).wf(),
            parent_level <= 4,
        ensures
            final(self).wf(),
            ({
                let slot = spec_slot_index(parent_level, vaddr);
                if !old(self).has(parent_paddr) {
                    r == Err::<u16, CapError>(CapError::InvalidOperation) && *final(self) == *old(self)
                } else if old(self).entry(parent_paddr, slot) != 0 {
                    r == Err::<u16, CapError>(CapError::AlreadyMapped) && *final(self) == *old(self)
                } else {
                    &&& r == Ok::<u16, CapError>(slot as u16)
                    &&& final(self).contents() == old(self).with_entry(parent_paddr, slot,
                        child_paddr | Pte::VALID | Pte::DESCRIPTOR)
                }
            }),
    {
        let slot = slot_index(parent_level, vaddr);
        let entry = match self.read(parent_paddr, slot) {
            Some(e) => e,
            None => {
                return Err(CapError::InvalidOperation);
            },
        };
        if entry != 0 {
            return Err(CapError::AlreadyMapped);
        }
        self.write(parent_paddr, slot, child_paddr | Pte::VALID | Pte::DESCRIPTOR);
        Ok(slot as u16)
    }

    /// Clear the table descriptor at `slot` of the parent table, after
    /// checking that it is valid and still points at `child_paddr`.
    pub fn clear_table_entry(&mut self, parent_paddr: u64, slot: u16, child_paddr: u64) -> (r: Result<(), CapError>)
        requires
            old(self).wf(),
            slot < ENTRIES_PER_TABLE,
        ensures
            final(self).wf(),
            ({
                let e = old(self).entry(parent_paddr, slot as int);
                if !old(self).has(parent_paddr) || e & Pte::VALID == 0 || e & ENTRY_ADDR_MASK != child_paddr {
                    r == Err::<(), CapError>(CapError::InvalidOperation) && *final(self) == *old(self)
                } else {
                    r == Ok::<(), CapError>(()) && final(self).contents() == old(self).with_entry(parent_paddr, slot as int, 0)
                }
            }),
    {
        let entry = match self.read(parent_paddr, slot as usize) {
            Some(e) => e,
            None => {
                return Err(CapError::InvalidOperation);
            },
        };
        if entry & Pte::VALID == 0 || entry & ENTRY_ADDR_MASK != child_paddr {
            return Err(CapError::InvalidOperation);
        }
        self.write(parent_paddr, slot as usize, 0);
        Ok(())
    }

    /// Where a frame mapping of `size_bits` at `vaddr` under `root_paddr`
    /// goes: the leaf table and slot, after the address, alignment, walk and
    /// vacancy checks.
    pub open spec fn frame_slot(&self, root_paddr: u64, vaddr: u64, size_bits: u8) -> Result<(u64, int), CapError> {
        let leaf = spec_leaf_level(size_bits);
        if vaddr >= 0x1_0000_0000_0000u64 {
            Err(CapError::InvalidPointer)
        } else if vaddr & (((1u64 << size_bits) - 1) as u64) != 0 {
            Err(CapError::InvalidSize(size_bits as usize))
        } else {
            match self.walk(root_paddr, vaddr, 0, leaf) {
                Err(e) => Err(e),
                Ok(t) => if !self.has(t) {
                    Err(CapError::InvalidOperation)
                } else if self.entry(t, spec_slot_index(leaf, vaddr)) != 0 {
                    Err(CapError::AlreadyMapped)
                } else {
                    Ok((t, spec_slot_index(leaf, vaddr)))
                },
            }
        }
    }

    /// Install the page or block descriptor mapping the frame at
    /// `frame_paddr` (`size_bits`) at `vaddr` under the root at
    /// `root_paddr` (see [`Self::frame_slot`] and [`frame_descriptor`]).
    pub fn install_frame_pte(&mut self, root_paddr: u64, vaddr: u64, frame_paddr: u64, size_bits: u8,
        writable: bool, executable: bool) -> (r: Result<(), CapError>)
        requires
            old(self).wf(),
            size_bits < 64,
        ensures
            final(self).wf(),
            match old(self).frame_slot(root_paddr, vaddr, size_bits) {
                Err(e) => r == Err::<(), CapError>(e) && *final(self) == *old(self),
                Ok((t, s)) => r == Ok::<(), CapError>(()) && final(self).contents() == old(self).with_entry(t, s,
                    frame_descriptor(frame_paddr, spec_leaf_level(size_bits), writable, executable)),
            },
    {
        if vaddr >= 0x1_0000_0000_0000u64 {
            return Err(CapError::InvalidPointer);
        }
        let frame_size: u64 = 1u64 << size_bits;
        assert(frame_size >= 1) by (bit_vector)
            requires
                frame_size == 1u64 << size_bits,
                size_bits < 64;
        if vaddr & (frame_size - 1) != 0 {
            return Err(CapError::InvalidSize(size_bits as usize));
        }
        let leaf = leaf_level(size_bits);
        let table = self.walk_to_leaf(root_paddr, vaddr, size_bits)?;
        let slot = slot_index(leaf, vaddr);
        let entry = match self.read(table, slot) {
            Some(e) => e,
            None => {
                return Err(CapError::InvalidOperation);
            },
        };
        if entry != 0 {
            return Err(CapError::AlreadyMapped);
        }
        let ap = if writable {
            Pte::AP_RW_USER
        } else {
            Pte::AP_RO_USER
        };
        let descriptor_bit = if leaf == 3 { Pte::DESCRIPTOR } else { 0 };
        let xn = if executable { 0 } else { Pte::PXN | Pte::UXN };
        let descriptor = frame_paddr | Pte::VALID | descriptor_bit | Pte::AF | Pte::SH_INNER | ap | Pte::ATTR_NORMAL | xn;
        self.write(table, slot, descriptor);
        Ok(())
    }

    /// Where the mapping of the frame at `frame_paddr` (`size_bits`) at
    /// `vaddr` under `root_paddr` lives: the walk must reach a leaf table
    /// whose descriptor is valid and still points at the frame.
    pub open spec fn mapped_frame_slot(&self, root_paddr: u64, vaddr: u64, frame_paddr: u64, size_bits: u8)
        -> Result<(u64, int), CapError> {
        let leaf = spec_leaf_level(size_bits);
        match self.walk(root_paddr, vaddr, 0, leaf) {
            Err(e) => Err(e),
            Ok(t) => {
                let e = self.entry(t, spec_slot_index(leaf, vaddr));
                if !self.has(t) || e & Pte::VALID == 0 || e & ENTRY_ADDR_MASK != frame_paddr {
                    Err(CapError::InvalidOperation)
                } else {
                    Ok((t, spec_slot_index(leaf, vaddr)))
                }
            },
        }
    }

    /// Clear the descriptor of the frame mapping at `vaddr` after checking
    /// that it still points at `frame_paddr` (see
    /// [`Self::mapped_frame_slot`]).
    pub fn clear_frame_pte(&mut self, root_paddr: u64, vaddr: u64, frame_paddr: u64, size_bits: u8)
        -> (r: Result<(), CapError>)
        requires
            old(self).wf(),
        ensures
            final(self).wf(),
            match old(self).mapped_frame_slot(root_paddr, vaddr, frame_paddr, size_bits) {
                Err(e) => r == Err::<(), CapError>(e) && *final(self) == *old(self),
                Ok((t, s)) => r == Ok::<(), CapError>(()) && final(self).contents() == old(self).with_entry(t, s, 0),
            },
    {
        let leaf = leaf_level(size_bits);
        let table = self.walk_to_leaf(root_paddr, vaddr, size_bits)?;
        let slot = slot_index(leaf, vaddr);
        let entry = match self.read(table, slot) {
            Some(e) => e,
            None => {
                return Err(CapError::InvalidOperation);
            },
        };
        if entry & Pte::VALID == 0 || entry & ENTRY_ADDR_MASK != frame_paddr {
            return Err(CapError::InvalidOperation);
        }
        self.write(table, slot, 0);
        Ok(())
    }

    /// The first leaf descriptor, in walk order (depth first, ascending
    /// index) from slot `i` of the table at `table` (walk level `level`),
    /// whose physical extent overlaps `[paddr, paddr + 2^size_bits)`: its
    /// physical base. Level 3 page descriptors and level 1-2 block
    /// descriptors are leaves; table descriptors at levels 0-2 are followed.
    pub open spec fn overlap_from(&self, table: u64, level: u8, i: int, paddr: u64, size_bits: u8) -> Option<u64>
        decreases 3 - level, 512 - i,
    {
        if i < 0 || i >= 512 || level > 3 || !self.has(table) {
            None
        } else {
            let e = self.entry(table, i);
            let here = if is_leaf_descriptor(e, level) {
                if extents_overlap(e & ENTRY_ADDR_MASK, level_span_bits(level), paddr, size_bits) {
                    Some(e & ENTRY_ADDR_MASK)
                } else {
                    None
                }
            } else if level < 3 && e & Pte::VALID != 0 && e & Pte::DESCRIPTOR != 0 {
                self.overlap_from(e & ENTRY_ADDR_MASK, (level + 1) as u8, 0, paddr, size_bits)
            } else {
                None
            };
            if here is Some {
                here
            } else {
                self.overlap_from(table, level, i + 1, paddr, size_bits)
            }
        }
    }

    /// The overlap search below the table at `table` (walk level `level`).
    fn overlap_in_table(&self, table: u64, level: u8, paddr: u64, size_bits: u8) -> (r: Option<u64>)
        requires
            self.wf(),
            level <= 3,
            size_bits < 64,
        ensures
            r == self.overlap_from(table, level, 0, paddr, size_bits),
        decreases 3 - level,
    {
        let mut i: usize = 0;
        while i < ENTRIES_PER_TABLE
            invariant
                self.wf(),
                level <= 3,
                size_bits < 64,
                i <= ENTRIES_PER_TABLE,
                self.overlap_from(table, level, 0, paddr, size_bits) == self.overlap_from(table, level, i as int, paddr, size_bits),
            decreases ENTRIES_PER_TABLE - i,
        {
            let e = match self.read(table, i) {
                Some(e) => e,
                None => {
                    return None;
                },
            };
            let here = if leaf_descriptor(e, level) {
                if overlaps(e & ENTRY_ADDR_MASK, span_bits(level), paddr, size_bits) {
                    Some(e & ENTRY_ADDR_MASK)
                } else {
                    None
                }
            } else if level < 3 && e & Pte::VALID != 0 && e & Pte::DESCRIPTOR != 0 {
                self.overlap_in_table(e & ENTRY_ADDR_MASK, level + 1, paddr, size_bits)
            } else {
                None
            };
            if here.is_some() {
                return here;
            }
            i = i + 1;
        }
        None
    }

    /// Alias-policy check: the physical base of the first leaf descriptor
    /// reachable from the root at `root_paddr` whose extent overlaps the
    /// candidate frame `[paddr, paddr + 2^size_bits)`, whatever capability
    /// installed it (see [`Self::overlap_from`]).
    pub fn find_physical_overlap(&self, root_paddr: u64, paddr: u64, size_bits: u8) -> (r: Option<u64>)
        requires
            self.wf(),
            size_bits < 64,
        ensures
            r == self.overlap_from(root_paddr, 0, 0, paddr, size_bits),
    {
        self.overlap_in_table(root_paddr, 0, paddr, size_bits)
    }
}

} // verus!
