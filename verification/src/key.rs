//! Capability selectors: bare slot indices and table-relative keys.

use vstd::prelude::*;

verus! {

/// A bare slot index, or a table-relative address (guard bits above the
/// slot index) when carried inside a [`RawKey`].
#[derive(Clone, Copy, Debug, PartialEq, Eq, Structural)]
pub struct KeySlot(pub u32);

impl KeySlot {
    /// Well-known slot of a table's capability to itself.
    pub const SELF_KEYTABLE: u32 = 0;
    /// Well-known slot of the bootstrap debug console.
    pub const DEBUG_CONSOLE: u32 = 1;
}

/// Identity of a domain (the owner of a capability table and of a DCB).
#[derive(Clone, Copy, Debug, PartialEq, Eq, Structural)]
pub struct DomainId(pub u32);

impl DomainId {
    /// The identity of no domain.
    pub const INVALID: u32 = 0xFFFF_FFFF;
}

/// A presented capability selector: a table-relative address plus the
/// incarnation the holder expects the slot to be in.
#[derive(Clone, Copy, Debug, PartialEq, Eq, Structural)]
pub struct RawKey {
    pub slot: KeySlot,
    pub incarnation: u32,
}

/// The table-relative address that packs `guard` above a `size_bits`-wide
/// slot index.
pub open spec fn packed_address(guard: u32, size_bits: u8, index: u32) -> u32 {
    ((guard << (size_bits as u32)) | index) as u32
}

/// Whether `guard` survives being packed above a `size_bits`-wide index:
/// none of its bits are shifted out of the 32-bit address.
pub open spec fn guard_fits(guard: u32, size_bits: u8) -> bool {
    (guard << (size_bits as u32)) >> (size_bits as u32) == guard
}

/// Unpacking a packed address: the bits above the index field read back as
/// the guard and the bits below as the index, when both fit their fields.
pub proof fn lemma_packed_address_unpacks(guard: u32, width: u32, index: u32)
    by (bit_vector)
    requires
        width < 32,
        index < (1u32 << width),
        (guard << width) >> width == guard,
    ensures
        ((guard << width) | index) >> width == guard,
        ((guard << width) | index) & (((1u32 << width) - 1) as u32) == index,
{
}

/// The key a wire word encodes: the table-relative address in the low
/// half, the incarnation in the high half.
pub open spec fn wire_key(word: u64) -> RawKey {
    RawKey { slot: KeySlot((word % 0x1_0000_0000) as u32), incarnation: (word / 0x1_0000_0000) as u32 }
}

impl RawKey {
    pub open spec fn spec_slot(self) -> KeySlot {
        self.slot
    }

    pub open spec fn spec_incarnation(self) -> u32 {
        self.incarnation
    }

    /// A key from a table-relative address and an incarnation.
    pub fn new(slot: KeySlot, incarnation: u32) -> (r: RawKey)
        ensures
            r.spec_slot() == slot,
            r.spec_incarnation() == incarnation,
    {
        RawKey { slot, incarnation }
    }

    /// Compose a key from a table's guard, its capacity exponent, a bare
    /// slot index and an incarnation: the guard sits above the index.
    pub fn from_parts(guard: u32, size_bits: u8, index: u32, incarnation: u32) -> (r: RawKey)
        requires
            size_bits < 32,
        ensures
            r.spec_slot().0 == packed_address(guard, size_bits, index),
            r.spec_incarnation() == incarnation,
    {
        let shift = size_bits as u32;
        RawKey { slot: KeySlot((guard << shift) | index), incarnation }
    }

    /// The table-relative address.
    pub fn slot(&self) -> (r: KeySlot)
        ensures
            r == self.spec_slot(),
    {
        self.slot
    }

    /// The expected incarnation of the slot.
    pub fn incarnation(&self) -> (r: u32)
        ensures
            r == self.spec_incarnation(),
    {
        self.incarnation
    }

    /// The wire word of this key: the incarnation in the high half, the
    /// table-relative address in the low half.
    pub open spec fn spec_to_wire(self) -> u64 {
        ((self.incarnation as u64) * 0x1_0000_0000 + (self.slot.0 as u64)) as u64
    }

    /// Decode a key from its wire word.
    pub fn from_wire(word: u64) -> (r: RawKey)
        ensures
            r == wire_key(word),
            r.spec_to_wire() == word,
            r.spec_slot().0 == word % 0x1_0000_0000,
            r.spec_incarnation() == word / 0x1_0000_0000,
    {
        let low = (word % 0x1_0000_0000) as u32;
        let high = (word / 0x1_0000_0000) as u32;
        RawKey { slot: KeySlot(low), incarnation: high }
    }

    /// Encode this key as its wire word.
    pub fn to_wire(&self) -> (r: u64)
        ensures
            r == self.spec_to_wire(),
    {
        (self.incarnation as u64) * 0x1_0000_0000 + (self.slot.0 as u64)
    }
}

} // verus!
