//! AArch64 kernel objects: frame sizes, page-table metadata, address spaces
//! and ASID pools, and the architecture's retype validation.

use vstd::prelude::*;
use crate::access::ObjectId;
use crate::bitmap::{bit_mask, bit_set, lemma_bit_index, lemma_word_clear_bit, lemma_word_full, lemma_word_set_bit, lowest_clear_bit, word_bit};
use crate::error::CapError;
use crate::key::KeySlot;
use crate::nucleus_object::NucleusObject;
use crate::object_type::{ArchType, ObjectType};

verus! {

/// Frame sizes of the 4 KiB-granule translation regime.
#[derive(Clone, Copy, Debug, PartialEq, Eq, Structural)]
pub enum FrameSize {
    /// 4 KiB page.
    Small,
    /// 2 MiB block.
    Large,
    /// 1 GiB block.
    Huge,
}

/// The size exponent of each frame size.
pub open spec fn frame_size_bits(s: FrameSize) -> u8 {
    match s {
        FrameSize::Small => 12,
        FrameSize::Large => 21,
        FrameSize::Huge => 30,
    }
}

impl FrameSize {
    /// The size exponent: 12, 21 or 30.
    pub fn bits(self) -> (r: u8)
        ensures
            r == frame_size_bits(self),
    {
        match self {
            FrameSize::Small => 12,
            FrameSize::Large => 21,
            FrameSize::Huge => 30,
        }
    }

    /// The frame size with exponent `bits`; other exponents are rejected.
    pub fn from_bits(bits: usize) -> (r: Result<FrameSize, ()>)
        ensures
            bits == 12 ==> r == Ok::<FrameSize, ()>(FrameSize::Small),
            bits == 21 ==> r == Ok::<FrameSize, ()>(FrameSize::Large),
            bits == 30 ==> r == Ok::<FrameSize, ()>(FrameSize::Huge),
            bits != 12 && bits != 21 && bits != 30 ==> r is Err,
    {
        if bits == 12 {
            Ok(FrameSize::Small)
        } else if bits == 21 {
            Ok(FrameSize::Large)
        } else if bits == 30 {
            Ok(FrameSize::Huge)
        } else {
            Err(())
        }
    }

    /// The size in bytes.
    pub fn size(self) -> (r: usize)
        ensures
            r == vstd::arithmetic::power2::pow2(frame_size_bits(self) as nat),
    {
        let b = self.bits() as usize;
        proof {
            crate::key_entry::lemma_shl_is_pow2(b);
        }
        1usize << b
    }
}

/// Installation record of a page table.
#[derive(Clone, Copy, Debug, PartialEq, Eq, Structural)]
pub enum PtParent {
    /// Not installed anywhere.
    Uninstalled,
    /// Installed as the translation root of an `AddressSpace`.
    Root { address_space: ObjectId },
    /// Installed in the parent table at physical address `parent_paddr`,
    /// at `slot`.
    Table { parent_paddr: u64, slot: u16 },
}

/// Kernel metadata for one carved 4 KiB page table.
#[derive(Clone, Copy, Debug, PartialEq, Eq, Structural)]
pub struct AArch64PageTable {
    /// Physical address of the carved table.
    pub paddr: u64,
    /// Walk level: 0 is the translation root, 3 the leaf-level table.
    pub level: u8,
    /// Installation record.
    pub parent: PtParent,
}

impl NucleusObject for AArch64PageTable {
    open spec fn inv(&self) -> bool {
        &&& self.level <= 3
        &&& self.parent matches PtParent::Table { slot, .. } ==> slot < 512
    }
}

impl AArch64PageTable {
    /// A freshly carved table: not installed anywhere.
    pub fn new(paddr: u64) -> (r: AArch64PageTable)
        ensures
            r == (AArch64PageTable { paddr, level: 0, parent: PtParent::Uninstalled }),
    {
        AArch64PageTable { paddr, level: 0, parent: PtParent::Uninstalled }
    }

    /// Physical address of the carved table.
    pub fn paddr(&self) -> (r: u64)
        ensures
            r == self.paddr,
    {
        self.paddr
    }

    /// The walk level.
    pub fn level(&self) -> (r: u8)
        ensures
            r == self.level,
    {
        self.level
    }

    /// Whether the table is installed anywhere.
    pub fn is_installed(&self) -> (r: bool)
        ensures
            r == !(self.parent is Uninstalled),
    {
        !matches!(self.parent, PtParent::Uninstalled)
    }

    /// The installation record.
    pub fn parent(&self) -> (r: PtParent)
        ensures
            r == self.parent,
    {
        self.parent
    }

    /// Record installation as the translation root of `address_space`.
    pub fn install_root(&mut self, address_space: ObjectId)
        ensures
            *final(self) == (AArch64PageTable {
                level: 0,
                parent: PtParent::Root { address_space },
                ..*old(self)
            }),
    {
        self.level = 0;
        self.parent = PtParent::Root { address_space };
    }

    /// Record installation in the parent table at `parent_paddr` (walk level
    /// `parent_level`) at `slot`: this table sits one level below.
    pub fn install_table(&mut self, parent_paddr: u64, parent_level: u8, slot: u16)
        requires
            parent_level < 3,
            slot < 512,
        ensures
            *final(self) == (AArch64PageTable {
                level: (parent_level + 1) as u8,
                parent: PtParent::Table { parent_paddr, slot },
                ..*old(self)
            }),
    {
        self.level = parent_level + 1;
        self.parent = PtParent::Table { parent_paddr, slot };
    }

    /// Clear the installation record.
    pub fn uninstall(&mut self)
        ensures
            *final(self) == (AArch64PageTable { parent: PtParent::Uninstalled, ..*old(self) }),
    {
        self.parent = PtParent::Uninstalled;
    }
}

/// Kernel state of one `AddressSpace`: its translation root and bound
/// hardware ASID.
#[derive(Clone, Copy, Debug, PartialEq, Eq, Structural)]
pub struct AArch64AddressSpace {
    /// Physical address of the installed translation-root table, if any.
    pub translation_root: Option<u64>,
    /// The hardware ASID bound to this address space, if any.
    pub asid: Option<u16>,
}

impl NucleusObject for AArch64AddressSpace {
    open spec fn inv(&self) -> bool {
        true
    }
}

impl AArch64AddressSpace {
    /// A fresh, unbound address space: no root, no ASID.
    pub fn new() -> (r: AArch64AddressSpace)
        ensures
            r == (AArch64AddressSpace { translation_root: None, asid: None }),
    {
        AArch64AddressSpace { translation_root: None, asid: None }
    }

    /// Physical address of the installed translation root, if any.
    pub fn translation_root(&self) -> (r: Option<u64>)
        ensures
            r == self.translation_root,
    {
        self.translation_root
    }

    /// Record or clear the translation root.
    pub fn set_translation_root(&mut self, root: Option<u64>)
        ensures
            *final(self) == (AArch64AddressSpace { translation_root: root, ..*old(self) }),
    {
        self.translation_root = root;
    }

    /// The bound ASID, if any.
    pub fn asid(&self) -> (r: Option<u16>)
        ensures
            r == self.asid,
    {
        self.asid
    }

    /// Record or clear the bound ASID.
    pub fn set_asid(&mut self, asid: Option<u16>)
        ensures
            *final(self) == (AArch64AddressSpace { asid, ..*old(self) }),
    {
        self.asid = asid;
    }
}

/// Kernel state of one ASID pool: an allocation bitmap over 512 ASIDs, bit
/// `n` set when ASID `n` is taken. ASID 0 is reserved for the kernel's boot
/// translation context and is never handed out.
pub struct AArch64ASIDPool {
    allocated: Vec<u64>,
}

impl NucleusObject for AArch64ASIDPool {
    open spec fn inv(&self) -> bool {
        self.wf()
    }
}

impl AArch64ASIDPool {
    /// ASIDs managed by one pool.
    pub const ASIDS_PER_POOL: usize = 512;
    /// Bitmap words of one pool.
    pub const WORDS: usize = 8;

    pub closed spec fn words(&self) -> Seq<u64> {
        self.allocated@
    }

    /// Whether ASID `a` is taken.
    pub open spec fn is_taken(&self, a: int) -> bool {
        bit_set(self.words(), a)
    }

    /// The bitmap covers exactly the pool's ASIDs.
    pub open spec fn wf(&self) -> bool {
        self.words().len() == AArch64ASIDPool::WORDS
    }

    /// A fresh pool with only ASID 0 (the kernel's boot context) taken.
    pub fn new() -> (r: AArch64ASIDPool)
        ensures
            r.wf(),
            forall|a: int| 0 <= a < AArch64ASIDPool::ASIDS_PER_POOL ==> #[trigger] r.is_taken(a) == (a == 0),
    {
        let mut allocated: Vec<u64> = Vec::new();
        allocated.push(1);
        while allocated.len() < Self::WORDS
            invariant
                1 <= allocated.len() <= AArch64ASIDPool::WORDS,
                allocated@[0] == 1,
                forall|k: int| 1 <= k < allocated.len() ==> #[trigger] allocated@[k] == 0,
            decreases AArch64ASIDPool::WORDS - allocated.len(),
        {
            allocated.push(0);
        }
        let r = AArch64ASIDPool { allocated };
        proof {
            assert forall|a: int| 0 <= a < AArch64ASIDPool::ASIDS_PER_POOL implies #[trigger] r.is_taken(a) == (a == 0) by {
                let j = (a % 64) as u64;
                if a / 64 == 0 {
                    assert(((1u64 >> j) & 1 == 1) == (j == 0)) by (bit_vector);
                } else {
                    assert((0u64 >> j) & 1 != 1) by (bit_vector);
                }
            }
        }
        r
    }

    /// Allocate the lowest free ASID, or `None`, changing nothing, when every
    /// ASID is taken.
    pub fn allocate(&mut self) -> (r: Option<u16>)
        requires
            old(self).wf(),
        ensures
            final(self).wf(),
            match r {
                Some(a) => {
                    &&& a < AArch64ASIDPool::ASIDS_PER_POOL
                    &&& !old(self).is_taken(a as int)
                    &&& forall|b: int| 0 <= b < a ==> #[trigger] old(self).is_taken(b)
                    &&& forall|c: int| 0 <= c < AArch64ASIDPool::ASIDS_PER_POOL ==>
                        #[trigger] final(self).is_taken(c) == (c == a || old(self).is_taken(c))
                },
                None => {
                    &&& forall|c: int| 0 <= c < AArch64ASIDPool::ASIDS_PER_POOL ==> #[trigger] old(self).is_taken(c)
                    &&& final(self).words() == old(self).words()
                },
            },
    {
        let mut wi: usize = 0;
        while wi < Self::WORDS
            invariant
                self.wf(),
                *self == *old(self),
                wi <= AArch64ASIDPool::WORDS,
                forall|c: int| 0 <= c < wi * 64 ==> #[trigger] self.is_taken(c),
            decreases AArch64ASIDPool::WORDS - wi,
        {
            let word = self.allocated[wi];
            if word != !0u64 {
                let bit = lowest_clear_bit(word);
                let new_word = word | (1u64 << bit);
                let a = wi * 64 + bit as usize;
                proof {
                    lemma_word_set_bit(word, bit);
                    assert forall|b: int| 0 <= b < a implies #[trigger] old(self).is_taken(b) by {
                        lemma_bit_index(b);
                        if b >= wi * 64 {
                            assert(word_bit(word, (b % 64) as u64));
                        }
                    }
                    assert forall|c: int| 0 <= c < AArch64ASIDPool::ASIDS_PER_POOL implies
                        #[trigger] self.words().update(wi as int, new_word)[c / 64] == if c / 64 == wi { new_word } else { self.words()[c / 64] } by {}
                    assert forall|c: int| 0 <= c < AArch64ASIDPool::ASIDS_PER_POOL implies
                        bit_set(self.words().update(wi as int, new_word), c) == (c == a || old(self).is_taken(c)) by {
                        lemma_bit_index(c);
                        if c / 64 == wi as int {
                            assert(new_word == word | bit_mask(bit));
                            assert(word_bit(word | bit_mask(bit), (c % 64) as u64) == ((c % 64) as u64 == bit || word_bit(word, (c % 64) as u64)));
                        }
                    }
                }
                self.allocated.set(wi, new_word);
                return Some(a as u16);
            }
            proof {
                lemma_word_full(word);
                assert forall|c: int| 0 <= c < (wi + 1) * 64 implies #[trigger] self.is_taken(c) by {
                    lemma_bit_index(c);
                    if c >= wi * 64 {
                        assert(word_bit(word, (c % 64) as u64));
                    }
                }
            }
            wi = wi + 1;
        }
        None
    }

    /// Release `asid` back to the pool. ASID 0, the kernel's own boot
    /// context, is never released; an ASID beyond the pool changes nothing.
    pub fn release(&mut self, asid: u16)
        requires
            old(self).wf(),
            asid != 0,
        ensures
            final(self).wf(),
            forall|c: int| 0 <= c < AArch64ASIDPool::ASIDS_PER_POOL ==>
                #[trigger] final(self).is_taken(c) == (c != asid && old(self).is_taken(c)),
    {
        let word_index = (asid / 64) as usize;
        let bit = (asid % 64) as u64;
        if word_index < Self::WORDS {
            let word = self.allocated[word_index];
            let new_word = word & !(1u64 << bit);
            proof {
                lemma_word_clear_bit(word, bit);
                assert forall|c: int| 0 <= c < AArch64ASIDPool::ASIDS_PER_POOL implies
                    bit_set(self.words().update(word_index as int, new_word), c) == (c != asid && old(self).is_taken(c)) by {
                    lemma_bit_index(c);
                    lemma_bit_index(asid as int);
                    if c / 64 == word_index as int {
                        assert(new_word == word & !bit_mask(bit));
                        assert(word_bit(word & !bit_mask(bit), (c % 64) as u64) == ((c % 64) as u64 != bit && word_bit(word, (c % 64) as u64)));
                    }
                }
            }
            self.allocated.set(word_index, new_word);
        } else {
            assert(asid >= 512);
        }
    }
}

/// The reserved ASID-control kind: the capability-protected
/// control point over the ASID namespace. It has no operations yet.
#[derive(Clone, Copy, Debug, PartialEq, Eq, Structural)]
pub struct AArch64ASIDControl;

impl NucleusObject for AArch64ASIDControl {
    open spec fn inv(&self) -> bool {
        true
    }
}

/// An allocated ASID as a capability-named token: its value and the pool
/// slot it came from.
#[derive(Clone, Copy, Debug, PartialEq, Eq, Structural)]
pub struct AArch64ASID {
    pub value: u16,
    pub pool_slot: KeySlot,
}

/// A physical memory frame as a standalone object: its base address, size,
/// memory kind and mapping count.
#[derive(Clone, Copy, Debug, PartialEq, Eq, Structural)]
pub struct AArch64Frame {
    phys_addr: u64,
    size: FrameSize,
    is_device: bool,
    map_count: u16,
}

impl AArch64Frame {
    pub closed spec fn spec_phys_addr(&self) -> u64 {
        self.phys_addr
    }

    pub closed spec fn spec_size(&self) -> FrameSize {
        self.size
    }

    pub closed spec fn spec_map_count(&self) -> u16 {
        self.map_count
    }

    pub closed spec fn spec_is_device(&self) -> bool {
        self.is_device
    }

    /// An unmapped normal-memory frame at `phys_addr`, which must be aligned
    /// to the frame size.
    pub fn new(phys_addr: u64, size: FrameSize) -> (r: AArch64Frame)
        requires
            (phys_addr as int) % (vstd::arithmetic::power2::pow2(frame_size_bits(size) as nat) as int) == 0,
        ensures
            r.spec_phys_addr() == phys_addr,
            r.spec_size() == size,
            !r.spec_is_device(),
            r.spec_map_count() == 0,
    {
        AArch64Frame { phys_addr, size, is_device: false, map_count: 0 }
    }

    /// The frame's physical base address.
    pub fn phys_addr(&self) -> (r: u64)
        ensures
            r == self.spec_phys_addr(),
    {
        self.phys_addr
    }

    /// The frame's size.
    pub fn size(&self) -> (r: FrameSize)
        ensures
            r == self.spec_size(),
    {
        self.size
    }

    /// Whether the frame is mapped anywhere.
    pub fn is_mapped(&self) -> (r: bool)
        ensures
            r == (self.spec_map_count() > 0),
    {
        self.map_count > 0
    }
}

/// One 64-bit translation descriptor.
#[derive(Clone, Copy, Debug, PartialEq, Eq, Structural)]
pub struct PageTableEntry(pub u64);

impl PageTableEntry {
    /// Valid bit.
    pub const VALID: u64 = 1;
    /// Table (or page) descriptor, as opposed to a block.
    pub const TABLE: u64 = 2;
    /// Access flag.
    pub const AF: u64 = 0x400;
    /// Read-only.
    pub const AP_RO: u64 = 0x80;
    /// Accessible from EL0.
    pub const AP_EL0: u64 = 0x40;
    /// Unprivileged execute never.
    pub const UXN: u64 = 0x40_0000_0000_0000;
    /// Privileged execute never.
    pub const PXN: u64 = 0x20_0000_0000_0000;

    /// An invalid (zero) descriptor.
    pub fn empty() -> (r: PageTableEntry)
        ensures
            r.0 == 0,
    {
        PageTableEntry(0)
    }

    /// Whether the valid bit is set.
    pub fn is_valid(&self) -> (r: bool)
        ensures
            r == (self.0 & PageTableEntry::VALID != 0),
    {
        self.0 & Self::VALID != 0
    }

    /// Point this descriptor at the next-level table at `phys`.
    pub fn set_table(&mut self, phys: u64)
        ensures
            final(self).0 == phys | PageTableEntry::VALID | PageTableEntry::TABLE,
    {
        self.0 = phys | Self::VALID | Self::TABLE;
    }

    /// Make this descriptor a block mapping of `phys` with `attrs`.
    pub fn set_block(&mut self, phys: u64, attrs: u64)
        ensures
            final(self).0 == phys | PageTableEntry::VALID | attrs,
    {
        self.0 = phys | Self::VALID | attrs;
    }

    /// Make this descriptor a page mapping of `phys` with `attrs`.
    pub fn set_page(&mut self, phys: u64, attrs: u64)
        ensures
            final(self).0 == phys | PageTableEntry::VALID | PageTableEntry::TABLE | attrs,
    {
        self.0 = phys | Self::VALID | Self::TABLE | attrs;
    }
}

/// A virtual address space as a standalone object: its root page table (by
/// the slot of its capability), its ASID, and the CPUs it is active on.
#[derive(Clone, Copy, Debug, PartialEq, Eq, Structural)]
pub struct AArch64VSpace {
    pub root_pt: Option<KeySlot>,
    pub asid: Option<u16>,
    pub active_cpus: u32,
}

/// The translation-table base register value for a root at `root` tagged
/// with `asid`: the ASID in bits 63:48 above the root address.
pub open spec fn spec_ttbr0(asid: u16, root: u64) -> u64 {
    ((asid as u64) << 48u64) | root
}

impl AArch64VSpace {
    /// A fresh address space: no root, no ASID, active nowhere.
    pub fn new() -> (r: AArch64VSpace)
        ensures
            r == (AArch64VSpace { root_pt: None, asid: None, active_cpus: 0 }),
    {
        AArch64VSpace { root_pt: None, asid: None, active_cpus: 0 }
    }

    /// Attach a root page table.
    pub fn set_root(&mut self, pt_slot: KeySlot)
        ensures
            *final(self) == (AArch64VSpace { root_pt: Some(pt_slot), ..*old(self) }),
    {
        self.root_pt = Some(pt_slot);
    }

    /// Assign an ASID.
    pub fn set_asid(&mut self, asid: u16)
        ensures
            *final(self) == (AArch64VSpace { asid: Some(asid), ..*old(self) }),
    {
        self.asid = Some(asid);
    }

    /// The translation-table base register value for this address space
    /// with its root at `root_pt_phys`; an unassigned ASID reads as zero.
    pub fn ttbr0(&self, root_pt_phys: u64) -> (r: u64)
        ensures
            r == spec_ttbr0(
                match self.asid {
                    Some(a) => a,
                    None => 0u16,
                },
                root_pt_phys,
            ),
    {
        let asid: u16 = match self.asid {
            Some(a) => a,
            None => 0,
        };
        ((asid as u64) << 48u64) | root_pt_phys
    }
}

/// The AArch64 architecture.
pub struct AArch64;

impl AArch64 {
    /// Page-table walk levels.
    pub const PT_LEVELS: usize = 4;
    /// Index bits per level (512 entries).
    pub const PT_INDEX_BITS: usize = 9;

    /// Validate a frame size exponent, returning the frame size in bytes:
    /// 4 KiB, 2 MiB or 1 GiB.
    pub fn validate_frame_size(size_bits: u8) -> (r: Result<usize, CapError>)
        ensures
            size_bits == 12 ==> r == Ok::<usize, CapError>(4096),
            size_bits == 21 ==> r == Ok::<usize, CapError>(0x20_0000),
            size_bits == 30 ==> r == Ok::<usize, CapError>(0x4000_0000),
            size_bits != 12 && size_bits != 21 && size_bits != 30 ==>
                r == Err::<usize, CapError>(CapError::InvalidFrameSize(size_bits as usize)),
    {
        if size_bits == 12 {
            Ok(4096)
        } else if size_bits == 21 {
            Ok(2 * 1024 * 1024)
        } else if size_bits == 30 {
            Ok(1024 * 1024 * 1024)
        } else {
            Err(CapError::InvalidFrameSize(size_bits as usize))
        }
    }

    /// Validate the carve of a pool-backed architecture object, returning its
    /// size in bytes: a page table is exactly 4 KiB; address spaces, ASID
    /// pools and the ASID-control point are their metadata; other kinds are
    /// unsupported.
    pub fn validate_retype(arch_type: ArchType, size_bits: u8) -> (r: Result<usize, CapError>)
        ensures
            r == match arch_type {
                ArchType::PageTable => if size_bits == 12 {
                    Ok::<usize, CapError>(4096)
                } else {
                    Err::<usize, CapError>(CapError::InvalidSize(size_bits as usize))
                },
                ArchType::AddressSpace => Ok::<usize, CapError>(
                    vstd::layout::size_of::<AArch64AddressSpace>() as usize),
                ArchType::ASIDPool => Ok::<usize, CapError>(vstd::layout::size_of::<AArch64ASIDPool>() as usize),
                ArchType::ASIDControl => Ok::<usize, CapError>(
                    vstd::layout::size_of::<AArch64ASIDControl>() as usize),
                _ => Err::<usize, CapError>(CapError::UnsupportedArchType(arch_type)),
            },
    {
        match arch_type {
            ArchType::PageTable => {
                if size_bits == 12 {
                    Ok(4096)
                } else {
                    Err(CapError::InvalidSize(size_bits as usize))
                }
            },
            ArchType::AddressSpace => Ok(core::mem::size_of::<AArch64AddressSpace>()),
            ArchType::ASIDPool => Ok(core::mem::size_of::<AArch64ASIDPool>()),
            ArchType::ASIDControl => Ok(core::mem::size_of::<AArch64ASIDControl>()),
            _ => Err(CapError::UnsupportedArchType(arch_type)),
        }
    }

    /// The metadata of a freshly carved page table at `paddr`.
    pub fn new_page_table(paddr: u64) -> (r: AArch64PageTable)
        ensures
            r == (AArch64PageTable { paddr, level: 0, parent: PtParent::Uninstalled }),
    {
        AArch64PageTable::new(paddr)
    }

    /// A fresh ASID pool with ASID 0 reserved.
    pub fn new_asid_pool() -> (r: AArch64ASIDPool)
        ensures
            r.wf(),
            forall|a: int| 0 <= a < AArch64ASIDPool::ASIDS_PER_POOL ==> #[trigger] r.is_taken(a) == (a == 0),
    {
        AArch64ASIDPool::new()
    }

    /// A fresh, unbound address space.
    pub fn new_address_space() -> (r: AArch64AddressSpace)
        ensures
            r == (AArch64AddressSpace { translation_root: None, asid: None }),
    {
        AArch64AddressSpace::new()
    }

    /// Create a pool-backed architecture object: no architecture kind is
    /// creatable this way yet (frames are inline capabilities and page tables
    /// are carved by Retype), so every kind is reported unsupported.
    pub fn create_arch_object(arch_type: ArchType, phys_addr: u64, size_bits: u8) -> (r: Result<(ObjectType, ObjectId), CapError>)
        ensures
            r == Err::<(ObjectType, ObjectId), CapError>(CapError::UnsupportedArchType(arch_type)),
    {
        Err(CapError::UnsupportedArchType(arch_type))
    }
}

} // verus!
