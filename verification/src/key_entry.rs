//! Capability-table entries.
//!
//! A tagged representation: most kinds store a checked object identity
//! (pool tag, index, generation), while region kinds (Untyped, Frame) store
//! their metadata inline — the capability *is* the object — and a `KeyTable`
//! capability stores the carved table's address, guard and capacity
//! exponent. The kind lives in the entry header and selects the payload.

use vstd::prelude::*;
use crate::access::{spec_tag_byte, spec_tag_from_byte, ObjectId, PoolTag};
use crate::error::CapError;
use crate::object_type::ObjectType;
use crate::rights::Rights;

verus! {

/// Payload for identity-based capabilities (most object kinds).
#[derive(Clone, Copy, Debug, PartialEq, Eq, Structural)]
pub struct ObjectPayload {
    pub pool: u8,
    pub index: u16,
    pub generation: u32,
}

/// Payload for inline Untyped capabilities: the region and its allocation
/// watermark (`state`, the next free byte offset shifted right by
/// `MIN_ALIGN_BITS`).
#[derive(Clone, Copy, Debug, PartialEq, Eq, Structural)]
pub struct RegionPayload {
    /// Physical base address of the region.
    pub paddr: u64,
    /// Watermark state field.
    pub state: u32,
    /// Size as log2 (region = `2^size_bits`).
    pub size_bits: u8,
    /// Whether this is device memory (not normal RAM).
    pub is_device: bool,
}

/// Payload for inline Frame capabilities: a physical region plus the frame's
/// single-mapping record (owning `AddressSpace` identity and full virtual
/// address). A derived copy starts unmapped.
#[derive(Clone, Copy, Debug, PartialEq, Eq, Structural)]
pub struct FramePayload {
    /// Physical base address of the frame.
    pub paddr: u64,
    /// Mapped virtual address; meaningful only while mapped.
    pub vaddr: u64,
    /// Owning `AddressSpace` allocation generation; meaningful only while
    /// mapped.
    pub as_generation: u32,
    /// Owning `AddressSpace` pool index; meaningful only while mapped.
    pub as_index: u16,
    /// Size as log2 (frame = `2^size_bits`).
    pub size_bits: u8,
    /// Flag bits: bit 0 `is_device`, bit 1 `mapped`.
    pub flags: u8,
}

/// The recorded mapping of a frame capability.
#[derive(Clone, Copy, Debug, PartialEq, Eq, Structural)]
pub struct FrameMapping {
    pub address_space: ObjectId,
    pub vaddr: u64,
}

/// Payload for a `KeyTable` capability: the carved table's kernel address,
/// and the guard and capacity exponent every key resolved through this
/// capability is checked against.
#[derive(Clone, Copy, Debug, PartialEq, Eq, Structural)]
pub struct KeyTablePayload {
    pub address: u64,
    pub guard: u32,
    pub size_bits: u8,
}

/// The payload variants, discriminated by the entry's kind.
#[derive(Clone, Copy, Debug, PartialEq, Eq, Structural)]
pub enum KeyPayload {
    Null,
    Object(ObjectPayload),
    Region(RegionPayload),
    Frame(FramePayload),
    KeyTable(KeyTablePayload),
}

/// A single entry in a thread's capability table.
#[derive(Clone, Copy, Debug, PartialEq, Eq, Structural)]
pub struct KeyEntry {
    pub obj_type: ObjectType,
    pub rights: Rights,
    pub badge: u16,
    pub payload: KeyPayload,
}

/// Flag bit: the backing is device memory, not ordinary RAM.
pub const FRAME_IS_DEVICE: u8 = 1;
/// Flag bit: the frame capability is currently mapped.
pub const FRAME_MAPPED: u8 = 2;

/// Minimum alignment bits for the watermark shift (16-byte alignment).
pub const MIN_ALIGN_BITS: u32 = 4;

/// Watermark encoding granularity in bytes: stored watermarks are always
/// multiples of this, so every allocation end committed to an Untyped's
/// watermark must be aligned up to it.
pub const MIN_ALIGN: usize = 16;

/// Whether `t` is a kind whose capabilities carry an object identity.
pub open spec fn is_identity_kind(t: ObjectType) -> bool {
    t.0 != ObjectType::NULL && t.0 != ObjectType::UNTYPED && t.0 != ObjectType::FRAME
        && t.0 != ObjectType::KEY_TABLE
}

impl KeyEntry {
    /// The payload variant matches the kind, a frame is smaller than 4 GiB,
    /// and a table capability names a capacity exponent no larger than a
    /// table can have.
    pub open spec fn wf(&self) -> bool {
        if self.obj_type.0 == ObjectType::NULL {
            self.payload == KeyPayload::Null
        } else if self.obj_type.0 == ObjectType::UNTYPED {
            self.payload is Region
        } else if self.obj_type.0 == ObjectType::FRAME {
            self.payload is Frame && self.payload->Frame_0.size_bits < 32
        } else if self.obj_type.0 == ObjectType::KEY_TABLE {
            self.payload is KeyTable && self.payload->KeyTable_0.size_bits <= 20
        } else {
            self.payload is Object
        }
    }

    /// Whether the entry names a capability.
    pub open spec fn spec_is_valid(&self) -> bool {
        self.obj_type.0 != ObjectType::NULL
    }

    /// The frame payload of a well-formed Frame entry.
    pub open spec fn frame(&self) -> FramePayload {
        self.payload->Frame_0
    }

    /// The region payload of a well-formed Untyped entry.
    pub open spec fn region(&self) -> RegionPayload {
        self.payload->Region_0
    }

    /// The table payload of a well-formed `KeyTable` entry.
    pub open spec fn table(&self) -> KeyTablePayload {
        self.payload->KeyTable_0
    }

    /// The null (empty) entry.
    pub open spec fn null_spec() -> KeyEntry {
        KeyEntry { obj_type: ObjectType(ObjectType::NULL), rights: Rights(0), badge: 0, payload: KeyPayload::Null }
    }

    /// Create a null (empty) entry.
    pub fn null() -> (r: KeyEntry)
        ensures
            r.wf(),
            r == KeyEntry::null_spec(),
    {
        KeyEntry { obj_type: ObjectType(ObjectType::NULL), rights: Rights::empty(), badge: 0, payload: KeyPayload::Null }
    }

    /// Create an identity-based capability entry from a checked identity.
    pub fn from_id(obj_type: ObjectType, id: ObjectId, rights: Rights, badge: u16) -> (r: KeyEntry)
        requires
            is_identity_kind(obj_type),
        ensures
            r.wf(),
            r == (KeyEntry {
                obj_type,
                rights,
                badge,
                payload: KeyPayload::Object(ObjectPayload {
                    pool: spec_tag_byte(id.pool),
                    index: id.index,
                    generation: id.generation,
                }),
            }),
    {
        KeyEntry {
            obj_type,
            rights,
            badge,
            payload: KeyPayload::Object(ObjectPayload {
                pool: id.pool.as_raw(),
                index: id.index,
                generation: id.generation,
            }),
        }
    }

    /// Create an inline Untyped capability with an empty watermark.
    pub fn new_untyped(paddr: u64, size_bits: u8, is_device: bool, rights: Rights) -> (r: KeyEntry)
        ensures
            r.wf(),
            r == (KeyEntry {
                obj_type: ObjectType(ObjectType::UNTYPED),
                rights,
                badge: 0,
                payload: KeyPayload::Region(RegionPayload { paddr, state: 0, size_bits, is_device }),
            }),
    {
        KeyEntry {
            obj_type: ObjectType(ObjectType::UNTYPED),
            rights,
            badge: 0,
            payload: KeyPayload::Region(RegionPayload { paddr, state: 0, size_bits, is_device }),
        }
    }

    /// Create an inline, unmapped Frame capability.
    pub fn new_frame(paddr: u64, size_bits: u8, is_device: bool, rights: Rights) -> (r: KeyEntry)
        requires
            size_bits < 32,
        ensures
            r.wf(),
            r == (KeyEntry {
                obj_type: ObjectType(ObjectType::FRAME),
                rights,
                badge: 0,
                payload: KeyPayload::Frame(FramePayload {
                    paddr,
                    vaddr: 0,
                    as_generation: 0,
                    as_index: 0,
                    size_bits,
                    flags: if is_device { FRAME_IS_DEVICE } else { 0 },
                }),
            }),
    {
        KeyEntry {
            obj_type: ObjectType(ObjectType::FRAME),
            rights,
            badge: 0,
            payload: KeyPayload::Frame(FramePayload {
                paddr,
                vaddr: 0,
                as_generation: 0,
                as_index: 0,
                size_bits,
                flags: if is_device { FRAME_IS_DEVICE } else { 0 },
            }),
        }
    }

    /// Create a capability for a carved `KeyTable` object.
    pub fn new_keytable(address: u64, guard: u32, size_bits: u8, rights: Rights, badge: u16) -> (r: KeyEntry)
        requires
            size_bits <= 20,
        ensures
            r.wf(),
            r == (KeyEntry {
                obj_type: ObjectType(ObjectType::KEY_TABLE),
                rights,
                badge,
                payload: KeyPayload::KeyTable(KeyTablePayload { address, guard, size_bits }),
            }),
    {
        KeyEntry {
            obj_type: ObjectType(ObjectType::KEY_TABLE),
            rights,
            badge,
            payload: KeyPayload::KeyTable(KeyTablePayload { address, guard, size_bits }),
        }
    }

    /// Check if this entry is valid (not null).
    pub fn is_valid(&self) -> (r: bool)
        ensures
            r == self.spec_is_valid(),
    {
        self.obj_type.0 != ObjectType::NULL
    }

    /// Check if this is an inline region type (Untyped or Frame).
    pub fn is_region(&self) -> (r: bool)
        ensures
            r == (self.obj_type.0 == ObjectType::UNTYPED || self.obj_type.0 == ObjectType::FRAME),
    {
        self.obj_type.0 == ObjectType::UNTYPED || self.obj_type.0 == ObjectType::FRAME
    }

    /// Check if this is a carved object kind (addressed directly).
    pub fn is_carved(&self) -> (r: bool)
        ensures
            r == (self.obj_type.0 == ObjectType::KEY_TABLE),
    {
        self.obj_type.0 == ObjectType::KEY_TABLE
    }

    /// The object type.
    pub fn object_type(&self) -> (r: ObjectType)
        ensures
            r == self.obj_type,
    {
        self.obj_type
    }

    /// Access rights.
    pub fn rights(&self) -> (r: Rights)
        ensures
            r == self.rights,
    {
        self.rights
    }

    /// Badge value.
    pub fn badge(&self) -> (r: u16)
        ensures
            r == self.badge,
    {
        self.badge
    }

    /// A derived copy with `rights`, preserving the badge and payload —
    /// except that a derived Frame starts unmapped: the mapping belongs to
    /// the original capability. A pure representation transform; callers
    /// check that `rights` attenuates.
    pub fn derive(&self, rights: Rights) -> (r: KeyEntry)
        requires
            self.wf(),
        ensures
            r.wf(),
            r == spec_derive(*self, rights),
    {
        let mut derived = *self;
        derived.rights = rights;
        if let KeyPayload::Frame(f) = derived.payload {
            let mut g = f;
            g.clear_mapped();
            derived.payload = KeyPayload::Frame(g);
        }
        derived
    }

    /// The checked object identity (identity-based capabilities only);
    /// region, carved and null entries report a type mismatch.
    pub fn object_id(&self) -> (r: Result<ObjectId, CapError>)
        requires
            self.wf(),
        ensures
            is_identity_kind(self.obj_type) ==> r == Ok::<ObjectId, CapError>(ObjectId {
                pool: spec_tag_from_byte(self.payload->Object_0.pool),
                index: self.payload->Object_0.index,
                generation: self.payload->Object_0.generation,
            }),
            !is_identity_kind(self.obj_type) ==> r == Err::<ObjectId, CapError>(CapError::TypeMismatch {
                expected: ObjectType(ObjectType::UNTYPED),
                found: self.obj_type,
            }),
    {
        if self.is_region() || self.is_carved() || self.obj_type.0 == ObjectType::NULL {
            return Err(CapError::TypeMismatch { expected: ObjectType(ObjectType::UNTYPED), found: self.obj_type });
        }
        match self.payload {
            KeyPayload::Object(obj) => Ok(ObjectId {
                pool: PoolTag::from_raw(obj.pool),
                index: obj.index,
                generation: obj.generation,
            }),
            _ => Err(CapError::TypeMismatch { expected: ObjectType(ObjectType::UNTYPED), found: self.obj_type }),
        }
    }

    /// The carved `KeyTable` object address (`KeyTable` entries only).
    pub fn keytable_address(&self) -> (r: Result<u64, CapError>)
        requires
            self.wf(),
        ensures
            self.obj_type.0 == ObjectType::KEY_TABLE ==> r == Ok::<u64, CapError>(self.table().address),
            self.obj_type.0 != ObjectType::KEY_TABLE ==> r == Err::<u64, CapError>(CapError::TypeMismatch {
                expected: ObjectType(ObjectType::KEY_TABLE),
                found: self.obj_type,
            }),
    {
        match self.payload {
            KeyPayload::KeyTable(t) => Ok(t.address),
            _ => Err(CapError::TypeMismatch { expected: ObjectType(ObjectType::KEY_TABLE), found: self.obj_type }),
        }
    }

    /// The guard and capacity exponent recorded in a `KeyTable` entry.
    pub fn keytable_guard_and_size(&self) -> (r: Result<(u32, u8), CapError>)
        requires
            self.wf(),
        ensures
            self.obj_type.0 == ObjectType::KEY_TABLE ==>
                r == Ok::<(u32, u8), CapError>((self.table().guard, self.table().size_bits)),
            self.obj_type.0 != ObjectType::KEY_TABLE ==> r == Err::<(u32, u8), CapError>(CapError::TypeMismatch {
                expected: ObjectType(ObjectType::KEY_TABLE),
                found: self.obj_type,
            }),
    {
        match self.payload {
            KeyPayload::KeyTable(t) => Ok((t.guard, t.size_bits)),
            _ => Err(CapError::TypeMismatch { expected: ObjectType(ObjectType::KEY_TABLE), found: self.obj_type }),
        }
    }

    /// The inline Untyped payload (Untyped entries only).
    pub fn as_region(&self) -> (r: Result<&RegionPayload, CapError>)
        requires
            self.wf(),
        ensures
            self.obj_type.0 == ObjectType::UNTYPED ==> r == Ok::<&RegionPayload, CapError>(&self.region()),
            self.obj_type.0 != ObjectType::UNTYPED ==> r == Err::<&RegionPayload, CapError>(CapError::TypeMismatch {
                expected: ObjectType(ObjectType::UNTYPED),
                found: self.obj_type,
            }),
    {
        match &self.payload {
            KeyPayload::Region(region) => Ok(region),
            _ => Err(CapError::TypeMismatch { expected: ObjectType(ObjectType::UNTYPED), found: self.obj_type }),
        }
    }

    /// The inline Untyped payload, mutably (Untyped entries only).
    pub fn as_region_mut(&mut self) -> (r: Result<&mut RegionPayload, CapError>)
        requires
            old(self).wf(),
        ensures
            old(self).obj_type.0 == ObjectType::UNTYPED ==> (r matches Ok(p) && *p == old(self).region()
                && *final(self) == (KeyEntry { payload: KeyPayload::Region(*final(p)), ..*old(self) })),
            old(self).obj_type.0 != ObjectType::UNTYPED ==> (r matches Err(e) && e == CapError::TypeMismatch {
                expected: ObjectType(ObjectType::UNTYPED),
                found: old(self).obj_type,
            } && *final(self) == *old(self)),
    {
        if self.obj_type.0 != ObjectType::UNTYPED {
            return Err(CapError::TypeMismatch { expected: ObjectType(ObjectType::UNTYPED), found: self.obj_type });
        }
        match &mut self.payload {
            KeyPayload::Region(region) => Ok(region),
            _ => Err(CapError::TypeMismatch { expected: ObjectType(ObjectType::UNTYPED), found: self.obj_type }),
        }
    }

    /// The inline region payload, but only if this is an Untyped.
    pub fn as_untyped(&self) -> (r: Result<&RegionPayload, CapError>)
        requires
            self.wf(),
        ensures
            self.obj_type.0 == ObjectType::UNTYPED ==> r == Ok::<&RegionPayload, CapError>(&self.region()),
            self.obj_type.0 != ObjectType::UNTYPED ==> r == Err::<&RegionPayload, CapError>(CapError::TypeMismatch {
                expected: ObjectType(ObjectType::UNTYPED),
                found: self.obj_type,
            }),
    {
        self.as_region()
    }

    /// The inline region payload mutably, but only if this is an Untyped.
    pub fn as_untyped_mut(&mut self) -> (r: Result<&mut RegionPayload, CapError>)
        requires
            old(self).wf(),
        ensures
            old(self).obj_type.0 == ObjectType::UNTYPED ==> (r matches Ok(p) && *p == old(self).region()
                && *final(self) == (KeyEntry { payload: KeyPayload::Region(*final(p)), ..*old(self) })),
            old(self).obj_type.0 != ObjectType::UNTYPED ==> (r matches Err(e) && e == CapError::TypeMismatch {
                expected: ObjectType(ObjectType::UNTYPED),
                found: old(self).obj_type,
            } && *final(self) == *old(self)),
    {
        self.as_region_mut()
    }

    /// The inline Frame payload (Frame entries only).
    pub fn as_frame(&self) -> (r: Result<&FramePayload, CapError>)
        requires
            self.wf(),
        ensures
            self.obj_type.0 == ObjectType::FRAME ==> r == Ok::<&FramePayload, CapError>(&self.frame()),
            self.obj_type.0 != ObjectType::FRAME ==> r == Err::<&FramePayload, CapError>(CapError::TypeMismatch {
                expected: ObjectType(ObjectType::FRAME),
                found: self.obj_type,
            }),
    {
        match &self.payload {
            KeyPayload::Frame(frame) => Ok(frame),
            _ => Err(CapError::TypeMismatch { expected: ObjectType(ObjectType::FRAME), found: self.obj_type }),
        }
    }

    /// The inline Frame payload, mutably (Frame entries only).
    pub fn as_frame_mut(&mut self) -> (r: Result<&mut FramePayload, CapError>)
        requires
            old(self).wf(),
        ensures
            old(self).obj_type.0 == ObjectType::FRAME ==> (r matches Ok(p) && *p == old(self).frame()
                && *final(self) == (KeyEntry { payload: KeyPayload::Frame(*final(p)), ..*old(self) })),
            old(self).obj_type.0 != ObjectType::FRAME ==> (r matches Err(e) && e == CapError::TypeMismatch {
                expected: ObjectType(ObjectType::FRAME),
                found: old(self).obj_type,
            } && *final(self) == *old(self)),
    {
        if self.obj_type.0 != ObjectType::FRAME {
            return Err(CapError::TypeMismatch { expected: ObjectType(ObjectType::FRAME), found: self.obj_type });
        }
        match &mut self.payload {
            KeyPayload::Frame(frame) => Ok(frame),
            _ => Err(CapError::TypeMismatch { expected: ObjectType(ObjectType::FRAME), found: self.obj_type }),
        }
    }
}

/// The derived copy of `e` with `rights`: same kind, badge and payload, a
/// frame's mapping record cleared.
pub open spec fn spec_derive(e: KeyEntry, rights: Rights) -> KeyEntry {
    KeyEntry {
        rights,
        payload: match e.payload {
            KeyPayload::Frame(f) => KeyPayload::Frame(spec_cleared(f)),
            p => p,
        },
        ..e
    }
}

/// A derived capability carries exactly the given rights, names the same
/// object with the same kind and badge, and a derived frame starts
/// unmapped: its mapped flag is clear and its mapping record (address,
/// owning address space) is zero, whatever the source's mapping state,
/// while its base, size and device flag are the source's.
pub proof fn lemma_derive_fresh(e: KeyEntry, rights: Rights)
    ensures
        spec_derive(e, rights).rights == rights,
        spec_derive(e, rights).obj_type == e.obj_type,
        spec_derive(e, rights).badge == e.badge,
        !(e.payload is Frame) ==> spec_derive(e, rights).payload == e.payload,
        e.payload is Frame ==> ({
            let f = e.payload->Frame_0;
            let g = spec_derive(e, rights).payload->Frame_0;
            &&& spec_derive(e, rights).payload is Frame
            &&& g.flags & 2 == 0
            &&& g.flags & 1 == f.flags & 1
            &&& g.vaddr == 0
            &&& g.as_index == 0
            &&& g.as_generation == 0
            &&& g.paddr == f.paddr
            &&& g.size_bits == f.size_bits
        }),
{
    if let KeyPayload::Frame(f) = e.payload {
        let (ff, gf) = (f.flags, spec_cleared(f).flags);
        assert(gf & 2 == 0 && gf & 1 == ff & 1) by (bit_vector)
            requires
                gf == ff & !2u8;
    }
}

/// A frame payload with its mapping record cleared.
pub open spec fn spec_cleared(f: FramePayload) -> FramePayload {
    FramePayload { flags: f.flags & !FRAME_MAPPED, vaddr: 0, as_index: 0, as_generation: 0, ..f }
}

/// Whether a frame payload records a mapping.
pub open spec fn spec_frame_mapped(f: FramePayload) -> bool {
    f.flags & FRAME_MAPPED != 0
}

impl RegionPayload {
    /// The total size of the region in bytes.
    pub open spec fn spec_size(&self) -> int {
        vstd::arithmetic::power2::pow2(self.size_bits as nat) as int
    }

    /// The watermark in bytes.
    pub open spec fn spec_watermark(&self) -> int {
        self.state as int * 16
    }

    /// Get the total size of the region in bytes.
    pub fn size(&self) -> (r: usize)
        requires
            self.size_bits < usize::BITS,
        ensures
            r == self.spec_size(),
    {
        let bits = self.size_bits as usize;
        proof {
            lemma_shl_is_pow2(bits);
        }
        1usize << bits
    }

    /// Whether the state field is zero (no allocations).
    pub fn is_free(&self) -> (r: bool)
        ensures
            r == (self.state == 0),
    {
        self.state == 0
    }

    /// Reset the state field to zero.
    pub fn reset(&mut self)
        ensures
            *final(self) == (RegionPayload { state: 0, ..*old(self) }),
    {
        self.state = 0;
    }

    /// The watermark (next free byte offset) in bytes.
    pub fn watermark_bytes(&self) -> (r: usize)
        requires
            self.spec_watermark() <= usize::MAX,
        ensures
            r == self.spec_watermark(),
    {
        let s = self.state as usize;
        proof {
            vstd::arithmetic::power2::lemma2_to64();
            vstd::bits::lemma_usize_shl_is_mul(s, 4);
        }
        s << 4
    }

    /// Set the watermark from a byte offset, which must be a multiple of
    /// `MIN_ALIGN` representable in the 32-bit state field.
    pub fn set_watermark_bytes(&mut self, offset: usize)
        requires
            offset % 16 == 0,
            offset / 16 <= u32::MAX,
        ensures
            *final(self) == (RegionPayload { state: (offset / 16) as u32, ..*old(self) }),
            final(self).spec_watermark() == offset,
    {
        proof {
            vstd::arithmetic::power2::lemma2_to64();
            vstd::bits::lemma_usize_shr_is_div(offset, 4);
        }
        self.state = (offset >> 4) as u32;
    }

    /// The remaining free bytes in this Untyped region.
    pub fn free_bytes(&self) -> (r: usize)
        requires
            self.size_bits < usize::BITS,
            self.spec_watermark() <= self.spec_size(),
        ensures
            r == self.spec_size() - self.spec_watermark(),
    {
        self.size() - self.watermark_bytes()
    }
}

/// `1 << n` is `2^n` for shifts within the word.
pub proof fn lemma_shl_is_pow2(n: usize)
    requires
        n < usize::BITS,
    ensures
        (1usize << n) as int == vstd::arithmetic::power2::pow2(n as nat),
        vstd::arithmetic::power2::pow2(n as nat) <= usize::MAX,
{
    vstd::bits::lemma_usize_pow2_no_overflow(n as nat);
    vstd::bits::lemma_usize_shl_is_mul(1, n);
}

impl FramePayload {
    /// The total size of the frame in bytes.
    pub open spec fn spec_size(&self) -> int {
        vstd::arithmetic::power2::pow2(self.size_bits as nat) as int
    }

    /// Get the total size of the frame in bytes.
    pub fn size(&self) -> (r: usize)
        requires
            self.size_bits < usize::BITS,
        ensures
            r == self.spec_size(),
    {
        let bits = self.size_bits as usize;
        proof {
            lemma_shl_is_pow2(bits);
        }
        1usize << bits
    }

    /// Whether the backing is device memory, not ordinary RAM.
    pub fn is_device(&self) -> (r: bool)
        ensures
            r == (self.flags & FRAME_IS_DEVICE != 0),
    {
        self.flags & FRAME_IS_DEVICE != 0
    }

    /// Whether this frame capability is currently mapped.
    pub fn is_mapped(&self) -> (r: bool)
        ensures
            r == spec_frame_mapped(*self),
    {
        self.flags & FRAME_MAPPED != 0
    }

    /// The recorded mapping identity, if the frame is mapped.
    pub fn mapping(&self) -> (r: Option<FrameMapping>)
        ensures
            spec_frame_mapped(*self) ==> r == Some(FrameMapping {
                address_space: ObjectId {
                    pool: PoolTag::AddressSpace,
                    index: self.as_index,
                    generation: self.as_generation,
                },
                vaddr: self.vaddr,
            }),
            !spec_frame_mapped(*self) ==> r is None,
    {
        if self.is_mapped() {
            Some(FrameMapping {
                address_space: ObjectId {
                    pool: PoolTag::AddressSpace,
                    index: self.as_index,
                    generation: self.as_generation,
                },
                vaddr: self.vaddr,
            })
        } else {
            None
        }
    }

    /// Record that this frame was mapped into `address_space` at `vaddr`.
    pub fn set_mapped(&mut self, address_space: ObjectId, vaddr: u64)
        ensures
            *final(self) == (FramePayload {
                as_index: address_space.index,
                as_generation: address_space.generation,
                vaddr,
                flags: old(self).flags | FRAME_MAPPED,
                ..*old(self)
            }),
            spec_frame_mapped(*final(self)),
            final(self).flags & FRAME_IS_DEVICE == old(self).flags & FRAME_IS_DEVICE,
    {
        self.as_index = address_space.index;
        self.as_generation = address_space.generation;
        self.vaddr = vaddr;
        let f = self.flags;
        assert((f | 2u8) & 2u8 != 0 && (f | 2u8) & 1u8 == f & 1u8) by (bit_vector);
        self.flags = self.flags | FRAME_MAPPED;
    }

    /// Clear the mapping record (the frame was unmapped).
    pub fn clear_mapped(&mut self)
        ensures
            *final(self) == spec_cleared(*old(self)),
            !spec_frame_mapped(*final(self)),
            final(self).flags & FRAME_IS_DEVICE == old(self).flags & FRAME_IS_DEVICE,
    {
        let f = self.flags;
        assert((f & !2u8) & 2u8 == 0 && (f & !2u8) & 1u8 == f & 1u8) by (bit_vector);
        self.flags = self.flags & !FRAME_MAPPED;
        self.vaddr = 0;
        self.as_index = 0;
        self.as_generation = 0;
    }
}

} // verus!
