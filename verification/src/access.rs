//! Checked object identities.
//!
//! Capabilities store only a checked object identity — pool tag, pool index
//! and allocation generation — never a raw object reference. The owning pool
//! validates an identity against its authoritative per-slot metadata before
//! any access, so stale identities cannot reach a replacement object.

use vstd::prelude::*;

verus! {

/// Identifies which typed pool an object lives in. Kernel-internal identity,
/// never serialized across the syscall boundary.
#[derive(Clone, Copy, Debug, PartialEq, Eq, Structural)]
pub enum PoolTag {
    /// Marker for inline region types (Untyped, Frame) that are never pooled.
    Region,
    Domain,
    KeyTable,
    Thread,
    Notification,
    EventCount,
    /// Pending-invocation records.
    Pending,
    PageTable,
    AddressSpace,
    ASIDPool,
    ASIDControl,
}

/// The stored byte of each pool tag.
pub open spec fn spec_tag_byte(tag: PoolTag) -> u8 {
    match tag {
        PoolTag::Region => 255,
        PoolTag::Domain => 0,
        PoolTag::KeyTable => 1,
        PoolTag::Thread => 2,
        PoolTag::Notification => 3,
        PoolTag::EventCount => 4,
        PoolTag::Pending => 5,
        PoolTag::PageTable => 16,
        PoolTag::AddressSpace => 17,
        PoolTag::ASIDPool => 18,
        PoolTag::ASIDControl => 19,
    }
}

/// The tag a stored byte names; unknown bytes name `Region`, which no pooled
/// type uses, so pool validation rejects them.
pub open spec fn spec_tag_from_byte(raw: u8) -> PoolTag {
    if raw == 0 { PoolTag::Domain }
    else if raw == 1 { PoolTag::KeyTable }
    else if raw == 2 { PoolTag::Thread }
    else if raw == 3 { PoolTag::Notification }
    else if raw == 4 { PoolTag::EventCount }
    else if raw == 5 { PoolTag::Pending }
    else if raw == 16 { PoolTag::PageTable }
    else if raw == 17 { PoolTag::AddressSpace }
    else if raw == 18 { PoolTag::ASIDPool }
    else if raw == 19 { PoolTag::ASIDControl }
    else { PoolTag::Region }
}

impl PoolTag {
    /// Reconstruct a tag from its stored byte. Unknown bytes map to `Region`.
    pub fn from_raw(raw: u8) -> (r: PoolTag)
        ensures
            r == spec_tag_from_byte(raw),
    {
        match raw {
            0 => PoolTag::Domain,
            1 => PoolTag::KeyTable,
            2 => PoolTag::Thread,
            3 => PoolTag::Notification,
            4 => PoolTag::EventCount,
            5 => PoolTag::Pending,
            16 => PoolTag::PageTable,
            17 => PoolTag::AddressSpace,
            18 => PoolTag::ASIDPool,
            19 => PoolTag::ASIDControl,
            _ => PoolTag::Region,
        }
    }

    /// The byte stored for this tag in a capability payload.
    pub fn as_raw(self) -> (r: u8)
        ensures
            r == spec_tag_byte(self),
    {
        match self {
            PoolTag::Region => 255,
            PoolTag::Domain => 0,
            PoolTag::KeyTable => 1,
            PoolTag::Thread => 2,
            PoolTag::Notification => 3,
            PoolTag::EventCount => 4,
            PoolTag::Pending => 5,
            PoolTag::PageTable => 16,
            PoolTag::AddressSpace => 17,
            PoolTag::ASIDPool => 18,
            PoolTag::ASIDControl => 19,
        }
    }
}

/// Storing a tag as its byte and reading it back yields the same tag.
pub proof fn lemma_tag_round_trip(tag: PoolTag)
    ensures
        spec_tag_from_byte(spec_tag_byte(tag)) == tag,
{
}

/// Checked identity of a pool-allocated kernel object: a persistent handle,
/// validated against the owning pool's metadata before any access.
#[derive(Clone, Copy, Debug, PartialEq, Eq, Structural)]
pub struct ObjectId {
    /// Which typed pool owns the object.
    pub pool: PoolTag,
    /// Slot index within the pool.
    pub index: u16,
    /// Expected allocation generation of that slot.
    pub generation: u32,
}

impl ObjectId {
    /// The identity stored in vacated queue slots.
    pub fn vacant() -> (r: ObjectId)
        ensures
            r == (ObjectId { pool: PoolTag::Region, index: 0, generation: 0 }),
    {
        ObjectId { pool: PoolTag::Region, index: 0, generation: 0 }
    }
}

} // verus!
