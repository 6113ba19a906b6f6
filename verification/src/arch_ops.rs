//! Invocations of the AArch64 objects: `Frame`, `PageTable`,
//! `AddressSpace` and `ASIDPool`.
//!
//! `Frame.Map` `0` (`x2` address-space key, `x3` virtual address, `x4`
//! requested rights, `x5` attributes, zero) installs a page or block
//! descriptor under the address space's translation root: the frame
//! capability must grant the requested rights, which must include `READ`,
//! and the address space capability `MAP`; an unmapped, non-device frame
//! whose physical extent no installed mapping overlaps is required.
//! `Frame.Unmap` `1` clears the recorded mapping and invalidates its cached
//! translation. `Frame.GetAddress` `2` needs `GRANT` and returns the
//! frame's physical base and size.
//!
//! `PageTable.Map` `0` (`x2` parent key, `x3` virtual address) installs a
//! table as an address space's translation root (at address zero) or under
//! an installed parent table; the parent capability needs `MAP`.
//! `PageTable.Unmap` `1` withdraws an empty table.
//!
//! `AddressSpace.Activate` `0` (`MAP`) installs the running thread's own
//! address space as the hardware translation context; `AddressSpace.Retire`
//! `1` (`RETIRE`) tears down an address space without a root that the
//! running thread does not run in, releasing its ASID.
//!
//! `ASIDPool.Assign` `0` (`x2` address-space key; pool `GRANT`, address
//! space `MAP`) binds the lowest free ASID to an address space with a root
//! and none bound yet.

use vstd::prelude::*;
use crate::access::{ObjectId, PoolTag};
use crate::arch::{AArch64ASIDPool, AArch64AddressSpace, AArch64PageTable, PtParent};
use crate::error::CapError;
use crate::invoke::{cap_entry, lookup_entry};
use crate::key::{wire_key, RawKey};
use crate::key_entry::{is_identity_kind, spec_cleared, spec_frame_mapped, FramePayload, KeyEntry, KeyPayload, FRAME_IS_DEVICE, FRAME_MAPPED};
use crate::key_table::{key_check_in, replaced, CallerTable, KeyTable};
use crate::nucleus::{
    bound_asid, lemma_asids_after_assign, lemma_asids_after_retire, lemma_asids_consistent_frame,
    lemma_asids_same_bitmap, HwAction, Nucleus,
};
use crate::object_pool::{SlotMeta, SlotState};
use crate::object_type::ObjectType;
use crate::page_table::{
    frame_descriptor, lemma_frame_descriptor_access, lemma_frame_descriptor_address, lemma_slot_index_bound, spec_leaf_level, spec_slot_index, Pte,
    ENTRY_ADDR_MASK,
};
use crate::rights::{bits_contain, Rights};
use crate::sync_ops::{entry_id, lookup_typed, lookup_typed_at, pool_slot_updated, typed_entry, typed_entry_at};
use crate::table_ops::views;

verus! {

/// The operations of a `Frame` capability.
#[derive(Clone, Copy, Debug, PartialEq, Eq, Structural)]
pub enum FrameOp {
    /// `0`: map into an address space.
    MapInto,
    /// `1`: withdraw the mapping.
    Unmap,
    /// `2`: report the physical extent.
    GetAddress,
}

impl FrameOp {
    /// Decode an operation number; unknown ones are invalid.
    pub fn from_op(op: u64) -> (r: Result<FrameOp, CapError>)
        ensures
            op == 0 ==> r == Ok::<FrameOp, CapError>(FrameOp::MapInto),
            op == 1 ==> r == Ok::<FrameOp, CapError>(FrameOp::Unmap),
            op == 2 ==> r == Ok::<FrameOp, CapError>(FrameOp::GetAddress),
            op > 2 ==> r == Err::<FrameOp, CapError>(CapError::InvalidOperation),
    {
        if op == 0 {
            Ok(FrameOp::MapInto)
        } else if op == 1 {
            Ok(FrameOp::Unmap)
        } else if op == 2 {
            Ok(FrameOp::GetAddress)
        } else {
            Err(CapError::InvalidOperation)
        }
    }
}

/// The operations of a `PageTable` capability.
#[derive(Clone, Copy, Debug, PartialEq, Eq, Structural)]
pub enum PageTableOp {
    /// `0`: install as a root or under a parent table.
    MapInto,
    /// `1`: withdraw an empty table.
    Unmap,
}

impl PageTableOp {
    /// Decode an operation number; unknown ones are invalid.
    pub fn from_op(op: u64) -> (r: Result<PageTableOp, CapError>)
        ensures
            op == 0 ==> r == Ok::<PageTableOp, CapError>(PageTableOp::MapInto),
            op == 1 ==> r == Ok::<PageTableOp, CapError>(PageTableOp::Unmap),
            op > 1 ==> r == Err::<PageTableOp, CapError>(CapError::InvalidOperation),
    {
        if op == 0 {
            Ok(PageTableOp::MapInto)
        } else if op == 1 {
            Ok(PageTableOp::Unmap)
        } else {
            Err(CapError::InvalidOperation)
        }
    }
}

/// The operations of an `AddressSpace` (virtual address space) capability.
#[derive(Clone, Copy, Debug, PartialEq, Eq, Structural)]
pub enum VSpaceOp {
    /// `0`: install as the hardware translation context.
    Activate,
    /// `1`: tear down, releasing the ASID.
    Retire,
}

impl VSpaceOp {
    /// Decode an operation number; unknown ones are invalid.
    pub fn from_op(op: u64) -> (r: Result<VSpaceOp, CapError>)
        ensures
            op == 0 ==> r == Ok::<VSpaceOp, CapError>(VSpaceOp::Activate),
            op == 1 ==> r == Ok::<VSpaceOp, CapError>(VSpaceOp::Retire),
            op > 1 ==> r == Err::<VSpaceOp, CapError>(CapError::InvalidOperation),
    {
        if op == 0 {
            Ok(VSpaceOp::Activate)
        } else if op == 1 {
            Ok(VSpaceOp::Retire)
        } else {
            Err(CapError::InvalidOperation)
        }
    }
}

/// The operations of an `ASIDPool` capability.
#[derive(Clone, Copy, Debug, PartialEq, Eq, Structural)]
pub enum ASIDPoolOp {
    /// `0`: allocate an ASID and bind it to an address space.
    Assign,
}

impl ASIDPoolOp {
    /// Decode an operation number; unknown ones are invalid.
    pub fn from_op(op: u64) -> (r: Result<ASIDPoolOp, CapError>)
        ensures
            op == 0 ==> r == Ok::<ASIDPoolOp, CapError>(ASIDPoolOp::Assign),
            op != 0 ==> r == Err::<ASIDPoolOp, CapError>(CapError::InvalidOperation),
    {
        if op == 0 {
            Ok(ASIDPoolOp::Assign)
        } else {
            Err(CapError::InvalidOperation)
        }
    }
}

/// Everything but the carved tables, the translation tables and the
/// hardware requests is unchanged.
pub open spec fn frame_frame(a: &Nucleus, b: &Nucleus) -> bool {
    &&& b.pools == a.pools
    &&& b.pending == a.pending
    &&& b.scheduler == a.scheduler
    &&& b.dcb_pages == a.dcb_pages
    &&& b.current_thread == a.current_thread
}

/// The slot the invoked key names in the caller's table.
pub open spec fn caller_slot(a: &Nucleus, caller: CallerTable, key: RawKey) -> int {
    key_check_in(views(a.tables@)[caller.addr], key, caller.guard)->Ok_0
}

/// A frame capability after recording its mapping into `address_space` at
/// `vaddr`.
pub open spec fn mapped_entry(e: KeyEntry, address_space: ObjectId, vaddr: u64) -> KeyEntry {
    KeyEntry {
        payload: KeyPayload::Frame(FramePayload {
            as_index: address_space.index,
            as_generation: address_space.generation,
            vaddr,
            flags: e.frame().flags | FRAME_MAPPED,
            ..e.frame()
        }),
        ..e
    }
}

/// What `Frame.Map` does (see the module documentation).
pub open spec fn frame_map_done(a: &Nucleus, b: &Nucleus, caller: CallerTable, key: RawKey, args: Seq<u64>,
    r: Result<(u64, u64), CapError>) -> bool {
    let vaddr = args[1];
    if args[2] > 255 || args[4] != 0 || args[5] != 0 || args[3] != 0 {
        r == Err::<(u64, u64), CapError>(CapError::InvalidOperation) && *b == *a
    } else {
        let requested = Rights(args[2] as u8);
        match typed_entry(a, caller, key, ObjectType::FRAME) {
            Err(e) => r == Err::<(u64, u64), CapError>(e) && *b == *a,
            Ok(e) => {
                let f = e.frame();
                if !bits_contain(requested.0, Rights::READ) || !bits_contain(e.rights.0, requested.0) {
                    r == Err::<(u64, u64), CapError>(CapError::InsufficientRights) && *b == *a
                } else if spec_frame_mapped(f) {
                    r == Err::<(u64, u64), CapError>(CapError::AlreadyMapped) && *b == *a
                } else if f.flags & FRAME_IS_DEVICE != 0 {
                    r == Err::<(u64, u64), CapError>(CapError::InvalidOperation) && *b == *a
                } else {
                    match typed_entry_at(a, caller, wire_key(args[0]), 2, ObjectType::ADDRESS_SPACE) {
                        Err(err) => r == Err::<(u64, u64), CapError>(err) && *b == *a,
                        Ok(ase) => if !bits_contain(ase.rights.0, Rights::MAP) {
                            r == Err::<(u64, u64), CapError>(CapError::InsufficientRights) && *b == *a
                        } else {
                            let as_id = entry_id(ase);
                            match a.pools.arch.address_spaces.live(as_id) {
                                None => r == Err::<(u64, u64), CapError>(CapError::InvalidOperation) && *b == *a,
                                Some(space) => match space.translation_root {
                                    None => r == Err::<(u64, u64), CapError>(CapError::MissingIntermediate { vaddr })
                                        && *b == *a,
                                    Some(root) => match a.phys.overlap_from(root, 0, 0, f.paddr, f.size_bits) {
                                        Some(existing) => r == Err::<(u64, u64), CapError>(
                                            CapError::PhysicalAlias { paddr: existing }) && *b == *a,
                                        None => match a.phys.frame_slot(root, vaddr, f.size_bits) {
                                            Err(err) => r == Err::<(u64, u64), CapError>(err) && *b == *a,
                                            Ok((t, s)) => {
                                                &&& r == Ok::<(u64, u64), CapError>((0, 0))
                                                &&& frame_frame(a, b)
                                                &&& b.hw == a.hw
                                                &&& b.phys.contents() == a.phys.with_entry(t, s, frame_descriptor(f.paddr,
                                                    spec_leaf_level(f.size_bits), bits_contain(requested.0, Rights::WRITE),
                                                    bits_contain(requested.0, Rights::EXECUTE)))
                                                &&& views(b.tables@) == views(a.tables@).insert(caller.addr, replaced(
                                                    views(a.tables@)[caller.addr], caller_slot(a, caller, key),
                                                    mapped_entry(e, as_id, vaddr)))
                                            },
                                        },
                                    },
                                },
                            }
                        },
                    }
                }
            },
        }
    }
}

/// `Frame.Map` (see [`frame_map_done`]).
pub fn frame_map(nucleus: &mut Nucleus, caller: CallerTable, key: RawKey, args: &[u64; 6])
    -> (r: Result<(u64, u64), CapError>)
    requires
        old(nucleus).wf(),
    ensures
        final(nucleus).wf(),
        frame_map_done(old(nucleus), final(nucleus), caller, key, args@, r),
{
    let as_key = RawKey::from_wire(args[0]);
    let vaddr = args[1];
    if args[2] > 255 {
        return Err(CapError::InvalidOperation);
    }
    let requested = Rights(args[2] as u8);
    let attrs = args[3];
    if args[4] != 0 || args[5] != 0 {
        return Err(CapError::InvalidOperation);
    }
    if attrs != 0 {
        return Err(CapError::InvalidOperation);
    }
    let entry = lookup_typed(nucleus, caller, key, ObjectType::FRAME)?;
    if !requested.has(Rights::READ) || !entry.rights().permits(requested) {
        return Err(CapError::InsufficientRights);
    }
    let frame = match entry.as_frame() {
        Ok(f) => *f,
        Err(e) => {
            return Err(e.with_key_operand(0));
        },
    };
    if frame.is_mapped() {
        return Err(CapError::AlreadyMapped);
    }
    if frame.is_device() {
        return Err(CapError::InvalidOperation);
    }
    let as_entry = lookup_typed_at(nucleus, caller, as_key, 2, ObjectType::ADDRESS_SPACE)?;
    if !as_entry.rights().has(Rights::MAP) {
        return Err(CapError::InsufficientRights);
    }
    let as_id = match as_entry.object_id() {
        Ok(id) => id,
        Err(e) => {
            return Err(e.with_key_operand(2));
        },
    };
    let root = match nucleus.pools.arch.address_spaces.validate(as_id) {
        Err(e) => {
            return Err(e);
        },
        Ok(space) => match space.translation_root() {
            Some(root) => root,
            None => {
                return Err(CapError::MissingIntermediate { vaddr });
            },
        },
    };
    match nucleus.phys.find_physical_overlap(root, frame.paddr, frame.size_bits) {
        Some(existing) => {
            return Err(CapError::PhysicalAlias { paddr: existing });
        },
        None => {},
    }
    let writable = requested.has(Rights::WRITE);
    let executable = requested.has(Rights::EXECUTE);
    nucleus.phys.install_frame_pte(root, vaddr, frame.paddr, frame.size_bits, writable, executable)?;
    let ghost mid = *nucleus;
    match nucleus.tables.get_mut(caller.addr) {
        Some(table) => {
            let _recorded = table.record_frame_mapping(key, caller.guard, as_id, vaddr);
        },
        None => {},
    }
    proof {
        assert(mid.tables@ == old(nucleus).tables@);
        assert(views(nucleus.tables@) =~= views(old(nucleus).tables@).insert(caller.addr, replaced(
            views(old(nucleus).tables@)[caller.addr], caller_slot(old(nucleus), caller, key),
            mapped_entry(entry, as_id, vaddr))));
    }
    Ok((0, 0))
}

/// The address-space identity a mapped frame records.
pub open spec fn mapped_space(f: FramePayload) -> ObjectId {
    ObjectId { pool: PoolTag::AddressSpace, index: f.as_index, generation: f.as_generation }
}

/// The hardware requests that withdrawing a translation of `vaddr` from an
/// address space bound to `asid` adds.
pub open spec fn tlb_requests(asid: Option<u16>, vaddr: u64) -> Seq<HwAction> {
    match asid {
        Some(x) => seq![HwAction::InvalidateTlbVa { asid: x, vaddr }],
        None => Seq::empty(),
    }
}

/// What `Frame.Unmap` does (see the module documentation).
pub open spec fn frame_unmap_done(a: &Nucleus, b: &Nucleus, caller: CallerTable, key: RawKey, args: Seq<u64>,
    r: Result<(u64, u64), CapError>) -> bool {
    if args[0] != 0 || args[1] != 0 || args[2] != 0 || args[3] != 0 || args[4] != 0 || args[5] != 0 {
        r == Err::<(u64, u64), CapError>(CapError::InvalidOperation) && *b == *a
    } else {
        match typed_entry(a, caller, key, ObjectType::FRAME) {
            Err(e) => r == Err::<(u64, u64), CapError>(e) && *b == *a,
            Ok(e) => {
                let f = e.frame();
                if !spec_frame_mapped(f) {
                    r == Err::<(u64, u64), CapError>(CapError::NotMapped) && *b == *a
                } else {
                    match a.pools.arch.address_spaces.live(mapped_space(f)) {
                        None => r == Err::<(u64, u64), CapError>(CapError::InvalidOperation) && *b == *a,
                        Some(space) => match space.translation_root {
                            None => r == Err::<(u64, u64), CapError>(CapError::InvalidOperation) && *b == *a,
                            Some(root) => match a.phys.mapped_frame_slot(root, f.vaddr, f.paddr, f.size_bits) {
                                Err(err) => r == Err::<(u64, u64), CapError>(err) && *b == *a,
                                Ok((t, s)) => {
                                    &&& r == Ok::<(u64, u64), CapError>((0, 0))
                                    &&& frame_frame(a, b)
                                    &&& b.phys.contents() == a.phys.with_entry(t, s, 0)
                                    &&& b.hw@ == a.hw@ + tlb_requests(space.asid, f.vaddr)
                                    &&& views(b.tables@) == views(a.tables@).insert(caller.addr, replaced(
                                        views(a.tables@)[caller.addr], caller_slot(a, caller, key),
                                        KeyEntry { payload: KeyPayload::Frame(spec_cleared(f)), ..e }))
                                },
                            },
                        },
                    }
                }
            },
        }
    }
}

/// `Frame.Unmap` (see [`frame_unmap_done`]).
pub fn frame_unmap(nucleus: &mut Nucleus, caller: CallerTable, key: RawKey, args: &[u64; 6])
    -> (r: Result<(u64, u64), CapError>)
    requires
        old(nucleus).wf(),
    ensures
        final(nucleus).wf(),
        frame_unmap_done(old(nucleus), final(nucleus), caller, key, args@, r),
{
    if args[0] != 0 || args[1] != 0 || args[2] != 0 || args[3] != 0 || args[4] != 0 || args[5] != 0 {
        return Err(CapError::InvalidOperation);
    }
    let entry = lookup_typed(nucleus, caller, key, ObjectType::FRAME)?;
    let frame = match entry.as_frame() {
        Ok(f) => *f,
        Err(e) => {
            return Err(e.with_key_operand(0));
        },
    };
    let mapping = match frame.mapping() {
        Some(m) => m,
        None => {
            return Err(CapError::NotMapped);
        },
    };
    let (root, bound_asid) = match nucleus.pools.arch.address_spaces.validate(mapping.address_space) {
        Err(e) => {
            return Err(e);
        },
        Ok(space) => match space.translation_root() {
            Some(root) => (root, space.asid()),
            None => {
                return Err(CapError::InvalidOperation);
            },
        },
    };
    nucleus.phys.clear_frame_pte(root, mapping.vaddr, frame.paddr, frame.size_bits)?;
    match bound_asid {
        Some(asid) => {
            nucleus.hw.push(HwAction::InvalidateTlbVa { asid, vaddr: mapping.vaddr });
        },
        None => {},
    }
    let ghost mid = *nucleus;
    match nucleus.tables.get_mut(caller.addr) {
        Some(table) => {
            let _cleared = table.clear_frame_mapping(key, caller.guard);
        },
        None => {},
    }
    proof {
        assert(mid.tables@ == old(nucleus).tables@);
        assert(nucleus.hw@ =~= old(nucleus).hw@ + tlb_requests(bound_asid, frame.vaddr));
        assert(views(nucleus.tables@) =~= views(old(nucleus).tables@).insert(caller.addr, replaced(
            views(old(nucleus).tables@)[caller.addr], caller_slot(old(nucleus), caller, key),
            KeyEntry { payload: KeyPayload::Frame(spec_cleared(frame)), ..entry })));
    }
    Ok((0, 0))
}

/// What a successful `Frame.Map` maps and where: the frame, the target
/// address space's translation root, and the leaf table and slot it
/// writes.
pub open spec fn map_site(a: &Nucleus, caller: CallerTable, key: RawKey, args: Seq<u64>) -> (FramePayload, u64, u64, int) {
    let f = typed_entry(a, caller, key, ObjectType::FRAME)->Ok_0.frame();
    let as_id = entry_id(typed_entry_at(a, caller, wire_key(args[0]), 2, ObjectType::ADDRESS_SPACE)->Ok_0);
    let root = a.pools.arch.address_spaces.live(as_id)->Some_0.translation_root->Some_0;
    let slot = a.phys.frame_slot(root, args[1], f.size_bits)->Ok_0;
    (f, root, slot.0, slot.1)
}

/// `Frame.Map` lets user space write through the mapping exactly when the
/// requested rights (`x4`) include `WRITE`, and execute from it exactly
/// when they include `EXECUTE`: the descriptor it writes carries the access
/// bits `0x40` (read/write) or `0xC0` (read-only), and its execute-never
/// bits clear or set. (A frame base with bits outside the descriptor's
/// address field would spill into these bits, and is excluded.)
pub proof fn lemma_frame_map_access(a: &Nucleus, b: &Nucleus, caller: CallerTable, key: RawKey, args: Seq<u64>,
    r: Result<(u64, u64), CapError>)
    requires
        a.wf(),
        frame_map_done(a, b, caller, key, args, r),
        r is Ok,
        map_site(a, caller, key, args).0.paddr & ENTRY_ADDR_MASK == map_site(a, caller, key, args).0.paddr,
    ensures
        ({
            let (f, root, t, s) = map_site(a, caller, key, args);
            let e = b.phys.contents()[t][s];
            &&& e & 0xC0 == (if (args[2] as u8) & 0x02 != 0 { 0x40u64 } else { 0xC0u64 })
            &&& e & 0x60_0000_0000_0000 == (if (args[2] as u8) & 0x04 != 0 { 0u64 } else { 0x60_0000_0000_0000u64 })
        }),
{
    let (f, root, t, s) = map_site(a, caller, key, args);
    let req = args[2] as u8;
    let leaf = spec_leaf_level(f.size_bits);
    let w = bits_contain(req, Rights::WRITE);
    let x = bits_contain(req, Rights::EXECUTE);
    assert(w == (req & 0x02 != 0) && x == (req & 0x04 != 0)) by (bit_vector)
        requires
            w == (req & 2u8 == 2u8),
            x == (req & 4u8 == 4u8);
    a.phys.lemma_contents();
    lemma_slot_index_bound(leaf, args[1]);
    lemma_frame_descriptor_access(f.paddr, leaf, w, x);
    assert(b.phys.contents()[t][s] == frame_descriptor(f.paddr, leaf, w, x));
}

/// `Frame.Unmap` undoes `Frame.Map`: once a frame is mapped, unmapping it
/// through the same capability succeeds, restores the translation tables
/// exactly and leaves the capability as it was with its mapping fields
/// cleared; the only other trace is the TLB request for the address.
/// Excluded are the mappings it cannot undo: a frame whose base has bits
/// outside the descriptor's address field, and a descriptor written on
/// its own walk.
pub proof fn lemma_unmap_undoes_map(a: &Nucleus, b: &Nucleus, c: &Nucleus, caller: CallerTable, key: RawKey,
    args: Seq<u64>, r1: Result<(u64, u64), CapError>, r2: Result<(u64, u64), CapError>)
    requires
        a.wf(),
        b.wf(),
        frame_map_done(a, b, caller, key, args, r1),
        r1 is Ok,
        frame_unmap_done(b, c, caller, key, seq![0u64, 0, 0, 0, 0, 0], r2),
        ({
            let (f, root, t, s) = map_site(a, caller, key, args);
            &&& f.paddr & ENTRY_ADDR_MASK == f.paddr
            &&& !a.phys.walk_reads(root, args[1], 0, spec_leaf_level(f.size_bits), t, s)
        }),
    ensures
        r2 == Ok::<(u64, u64), CapError>((0, 0)),
        c.phys.contents() == a.phys.contents(),
        c.pools == a.pools,
        c.pending == a.pending,
        c.scheduler == a.scheduler,
        c.dcb_pages == a.dcb_pages,
        c.current_thread == a.current_thread,
        ({
            let e = typed_entry(a, caller, key, ObjectType::FRAME)->Ok_0;
            views(c.tables@) == views(a.tables@).insert(caller.addr, replaced(views(a.tables@)[caller.addr],
                caller_slot(a, caller, key), KeyEntry { payload: KeyPayload::Frame(spec_cleared(e.frame())), ..e }))
        }),
        ({
            let as_id = entry_id(typed_entry_at(a, caller, wire_key(args[0]), 2, ObjectType::ADDRESS_SPACE)->Ok_0);
            c.hw@ == a.hw@ + tlb_requests(a.pools.arch.address_spaces.live(as_id)->Some_0.asid, args[1])
        }),
{
    let vaddr = args[1];
    let e = typed_entry(a, caller, key, ObjectType::FRAME)->Ok_0;
    let f = e.frame();
    let ase = typed_entry_at(a, caller, wire_key(args[0]), 2, ObjectType::ADDRESS_SPACE)->Ok_0;
    let as_id = entry_id(ase);
    let space = a.pools.arch.address_spaces.live(as_id)->Some_0;
    let root = space.translation_root->Some_0;
    let (t, s) = a.phys.frame_slot(root, vaddr, f.size_bits)->Ok_0;
    let leaf = spec_leaf_level(f.size_bits);
    let requested = Rights(args[2] as u8);
    let desc = frame_descriptor(f.paddr, leaf, bits_contain(requested.0, Rights::WRITE),
        bits_contain(requested.0, Rights::EXECUTE));
    let me = mapped_entry(e, as_id, vaddr);
    let tv = views(a.tables@);
    let idx = caller_slot(a, caller, key);
    // The capability now resolves to its mapped form.
    assert(key_check_in(replaced(tv[caller.addr], idx, me), key, caller.guard) == key_check_in(tv[caller.addr], key,
        caller.guard));
    assert(typed_entry(b, caller, key, ObjectType::FRAME) == Ok::<KeyEntry, CapError>(me));
    let mf = me.frame();
    let (mflags, fflags) = (mf.flags, f.flags);
    assert(mflags & 2u8 != 0) by (bit_vector)
        requires
            mflags == fflags | 2u8;
    assert(mapped_space(mf) == as_id);
    // The walk still reaches the leaf table, which now holds the frame.
    lemma_slot_index_bound(leaf, vaddr);
    a.phys.lemma_walk_unread(&b.phys, root, vaddr, 0, leaf, t, s, desc);
    lemma_frame_descriptor_address(f.paddr, leaf, bits_contain(requested.0, Rights::WRITE),
        bits_contain(requested.0, Rights::EXECUTE));
    a.phys.lemma_contents();
    b.phys.lemma_contents();
    assert(b.phys.has(t));
    assert(b.phys.entry(t, s) == desc);
    assert(b.phys.mapped_frame_slot(root, vaddr, f.paddr, f.size_bits) == Ok::<(u64, int), CapError>((t, s)));
    // Clearing the descriptor restores the table, which held none.
    assert(a.phys.contents()[t][s] == 0);
    assert(a.phys.contents()[t].update(s, desc).update(s, 0) =~= a.phys.contents()[t]);
    assert(c.phys.contents() =~= a.phys.contents());
    // The capability ends cleared.
    assert(caller_slot(b, caller, key) == idx);
    assert((fflags | 2u8) & !2u8 == fflags & !2u8) by (bit_vector);
    assert(spec_cleared(mf) == spec_cleared(f));
    let cleared = KeyEntry { payload: KeyPayload::Frame(spec_cleared(f)), ..e };
    assert(KeyEntry { payload: KeyPayload::Frame(spec_cleared(mf)), ..me } == cleared);
    assert(tv[caller.addr].entries.update(idx, me).update(idx, cleared) =~= tv[caller.addr].entries.update(idx, cleared));
    assert(replaced(replaced(tv[caller.addr], idx, me), idx, cleared) == replaced(tv[caller.addr], idx, cleared));
}

/// What `Frame.GetAddress` returns: the physical base and the size of a
/// frame whose capability grants `GRANT`.
pub open spec fn frame_extent_done(a: &Nucleus, caller: CallerTable, key: RawKey, args: Seq<u64>,
    r: Result<(u64, u64), CapError>) -> bool {
    if args[0] != 0 || args[1] != 0 || args[2] != 0 || args[3] != 0 || args[4] != 0 || args[5] != 0 {
        r == Err::<(u64, u64), CapError>(CapError::InvalidOperation)
    } else {
        match typed_entry(a, caller, key, ObjectType::FRAME) {
            Err(e) => r == Err::<(u64, u64), CapError>(e),
            Ok(e) => if !bits_contain(e.rights.0, Rights::GRANT) {
                r == Err::<(u64, u64), CapError>(CapError::InsufficientRights)
            } else {
                r == Ok::<(u64, u64), CapError>((e.frame().paddr, e.frame().spec_size() as u64))
            },
        }
    }
}

/// `Frame.GetAddress` (see [`frame_extent_done`]).
pub fn get_extent(nucleus: &Nucleus, caller: CallerTable, key: RawKey, args: &[u64; 6]) -> (r: Result<(u64, u64), CapError>)
    requires
        nucleus.wf(),
    ensures
        frame_extent_done(nucleus, caller, key, args@, r),
{
    if args[0] != 0 || args[1] != 0 || args[2] != 0 || args[3] != 0 || args[4] != 0 || args[5] != 0 {
        return Err(CapError::InvalidOperation);
    }
    let entry = lookup_typed(nucleus, caller, key, ObjectType::FRAME)?;
    if !entry.rights().has(Rights::GRANT) {
        return Err(CapError::InsufficientRights);
    }
    let frame = match entry.as_frame() {
        Ok(f) => f,
        Err(e) => {
            return Err(e.with_key_operand(0));
        },
    };
    Ok((frame.paddr, frame.size() as u64))
}

/// What a `Frame` invocation does: `Map` `0`, `Unmap` `1`, `GetAddress` `2`;
/// `Remap` `3` and unknown operations are invalid.
pub open spec fn frame_done(a: &Nucleus, b: &Nucleus, caller: CallerTable, key: RawKey, op: u64, args: Seq<u64>,
    r: Result<(u64, u64), CapError>) -> bool {
    if op == 0 {
        frame_map_done(a, b, caller, key, args, r)
    } else if op == 1 {
        frame_unmap_done(a, b, caller, key, args, r)
    } else if op == 2 {
        frame_extent_done(a, caller, key, args, r) && *b == *a
    } else {
        r == Err::<(u64, u64), CapError>(CapError::InvalidOperation) && *b == *a
    }
}

/// Handle a `Frame` invocation (see [`frame_done`]).
pub fn frame_invoke(nucleus: &mut Nucleus, caller: CallerTable, key: RawKey, op: u64, args: &[u64; 6])
    -> (r: Result<(u64, u64), CapError>)
    requires
        old(nucleus).wf(),
    ensures
        final(nucleus).wf(),
        frame_done(old(nucleus), final(nucleus), caller, key, op, args@, r),
{
    match FrameOp::from_op(op)? {
        FrameOp::MapInto => frame_map(nucleus, caller, key, args),
        FrameOp::Unmap => frame_unmap(nucleus, caller, key, args),
        FrameOp::GetAddress => get_extent(nucleus, caller, key, args),
    }
}

/// The identity an identity capability carries, or the error a capability
/// of another kind reports.
pub open spec fn entry_object(e: KeyEntry) -> Result<ObjectId, CapError> {
    if is_identity_kind(e.obj_type) {
        Ok(entry_id(e))
    } else {
        Err(CapError::TypeMismatch { expected: ObjectType(ObjectType::UNTYPED), found: e.obj_type })
    }
}

/// Everything but the architecture pools and the translation tables is
/// unchanged.
pub open spec fn mapping_frame(a: &Nucleus, b: &Nucleus) -> bool {
    &&& b.pools.threads == a.pools.threads
    &&& b.pools.notifications == a.pools.notifications
    &&& b.pools.event_counts == a.pools.event_counts
    &&& b.tables == a.tables
    &&& b.pending == a.pending
    &&& b.scheduler == a.scheduler
    &&& b.dcb_pages == a.dcb_pages
    &&& b.current_thread == a.current_thread
}

/// The page table `pt_id` and its parent capability (operand 2).
pub open spec fn pt_operands(a: &Nucleus, caller: CallerTable, key: RawKey, parent_key: RawKey)
    -> Result<(ObjectId, KeyEntry, ObjectId), CapError> {
    match typed_entry(a, caller, key, ObjectType::PAGE_TABLE) {
        Err(e) => Err(e),
        Ok(pe) => match cap_entry(views(a.tables@), caller, parent_key, 2) {
            Err(e) => Err(e),
            Ok(parent) => match entry_object(parent) {
                Err(e) => Err(e),
                Ok(parent_id) => Ok((entry_id(pe), parent, parent_id)),
            },
        },
    }
}

/// What `PageTable.Map` does (see the module documentation).
pub open spec fn pt_map_done(a: &Nucleus, b: &Nucleus, caller: CallerTable, key: RawKey, args: Seq<u64>,
    r: Result<(u64, u64), CapError>) -> bool {
    let vaddr = args[1];
    if args[2] != 0 || args[3] != 0 || args[4] != 0 || args[5] != 0 {
        r == Err::<(u64, u64), CapError>(CapError::InvalidOperation) && *b == *a
    } else {
        match pt_operands(a, caller, key, wire_key(args[0])) {
            Err(e) => r == Err::<(u64, u64), CapError>(e) && *b == *a,
            Ok((pt_id, parent, parent_id)) => if !bits_contain(parent.rights.0, Rights::MAP) {
                r == Err::<(u64, u64), CapError>(CapError::InsufficientRights) && *b == *a
            } else if parent.obj_type.0 == ObjectType::ADDRESS_SPACE {
                if vaddr != 0 {
                    r == Err::<(u64, u64), CapError>(CapError::InvalidOperation) && *b == *a
                } else {
                    match a.pools.arch.address_spaces.live(parent_id) {
                        None => r == Err::<(u64, u64), CapError>(CapError::InvalidOperation) && *b == *a,
                        Some(space) => if space.translation_root is Some {
                            r == Err::<(u64, u64), CapError>(CapError::AlreadyMapped) && *b == *a
                        } else {
                            match a.pools.arch.page_tables.live(pt_id) {
                                None => r == Err::<(u64, u64), CapError>(CapError::InvalidOperation) && *b == *a,
                                Some(pt) => if !(pt.parent is Uninstalled) {
                                    r == Err::<(u64, u64), CapError>(CapError::AlreadyMapped) && *b == *a
                                } else {
                                    &&& r == Ok::<(u64, u64), CapError>((0, 0))
                                    &&& mapping_frame(a, b)
                                    &&& b.phys == a.phys
                                    &&& b.hw == a.hw
                                    &&& b.pools.arch.asid_pools == a.pools.arch.asid_pools
                                    &&& pool_slot_updated(a.pools.arch.address_spaces, b.pools.arch.address_spaces,
                                        parent_id.index as int)
                                    &&& b.pools.arch.address_spaces.objects()[parent_id.index as int]
                                        == Some(AArch64AddressSpace { translation_root: Some(pt.paddr), ..space })
                                    &&& pool_slot_updated(a.pools.arch.page_tables, b.pools.arch.page_tables, pt_id.index as int)
                                    &&& b.pools.arch.page_tables.objects()[pt_id.index as int] == Some(AArch64PageTable {
                                        level: 0,
                                        parent: PtParent::Root { address_space: parent_id },
                                        ..pt
                                    })
                                },
                            }
                        },
                    }
                }
            } else if parent.obj_type.0 == ObjectType::PAGE_TABLE {
                if pt_id == parent_id || pt_id.index == parent_id.index || a.pools.arch.page_tables.live(pt_id) is None
                    || a.pools.arch.page_tables.live(parent_id) is None {
                    r == Err::<(u64, u64), CapError>(CapError::InvalidOperation) && *b == *a
                } else {
                    let pt = a.pools.arch.page_tables.live(pt_id).unwrap();
                    let up = a.pools.arch.page_tables.live(parent_id).unwrap();
                    let slot = spec_slot_index(up.level, vaddr);
                    if !(pt.parent is Uninstalled) {
                        r == Err::<(u64, u64), CapError>(CapError::AlreadyMapped) && *b == *a
                    } else if up.parent is Uninstalled {
                        r == Err::<(u64, u64), CapError>(CapError::NotMapped) && *b == *a
                    } else if up.level >= 3 {
                        r == Err::<(u64, u64), CapError>(CapError::InvalidOperation) && *b == *a
                    } else if !a.phys.has(up.paddr) {
                        r == Err::<(u64, u64), CapError>(CapError::InvalidOperation) && *b == *a
                    } else if a.phys.entry(up.paddr, slot) != 0 {
                        r == Err::<(u64, u64), CapError>(CapError::AlreadyMapped) && *b == *a
                    } else {
                        &&& r == Ok::<(u64, u64), CapError>((0, 0))
                        &&& mapping_frame(a, b)
                        &&& b.hw == a.hw
                        &&& b.pools.arch.asid_pools == a.pools.arch.asid_pools
                        &&& b.pools.arch.address_spaces == a.pools.arch.address_spaces
                        &&& b.phys.contents() == a.phys.with_entry(up.paddr, slot, pt.paddr | Pte::VALID | Pte::DESCRIPTOR)
                        &&& pool_slot_updated(a.pools.arch.page_tables, b.pools.arch.page_tables, pt_id.index as int)
                        &&& b.pools.arch.page_tables.objects()[pt_id.index as int] == Some(AArch64PageTable {
                            level: (up.level + 1) as u8,
                            parent: PtParent::Table { parent_paddr: up.paddr, slot: slot as u16 },
                            ..pt
                        })
                    }
                }
            } else {
                r == Err::<(u64, u64), CapError>(CapError::InvalidObjectType(parent.obj_type)) && *b == *a
            },
        }
    }
}

/// `PageTable.Map` (see [`pt_map_done`]).
pub fn page_table_map(nucleus: &mut Nucleus, caller: CallerTable, key: RawKey, args: &[u64; 6])
    -> (r: Result<(u64, u64), CapError>)
    requires
        old(nucleus).wf(),
    ensures
        final(nucleus).wf(),
        pt_map_done(old(nucleus), final(nucleus), caller, key, args@, r),
{
    let parent_key = RawKey::from_wire(args[0]);
    let vaddr = args[1];
    if args[2] != 0 || args[3] != 0 || args[4] != 0 || args[5] != 0 {
        return Err(CapError::InvalidOperation);
    }
    let entry = lookup_typed(nucleus, caller, key, ObjectType::PAGE_TABLE)?;
    let pt_id = match entry.object_id() {
        Ok(id) => id,
        Err(e) => {
            return Err(e.with_key_operand(0));
        },
    };
    let parent = lookup_entry(&nucleus.tables, caller, parent_key, 2)?;
    let parent_id = match parent.object_id() {
        Ok(id) => id,
        Err(e) => {
            return Err(e.with_key_operand(2));
        },
    };
    if !parent.rights().has(Rights::MAP) {
        return Err(CapError::InsufficientRights);
    }
    let parent_type = parent.object_type();
    if parent_type.0 == ObjectType::ADDRESS_SPACE {
        if vaddr != 0 {
            return Err(CapError::InvalidOperation);
        }
        let has_root = match nucleus.pools.arch.address_spaces.validate(parent_id) {
            Err(e) => {
                return Err(e);
            },
            Ok(space) => space.translation_root().is_some(),
        };
        if has_root {
            return Err(CapError::AlreadyMapped);
        }
        let installed = match nucleus.pools.arch.page_tables.validate(pt_id) {
            Err(e) => {
                return Err(e);
            },
            Ok(pt) => pt.is_installed(),
        };
        if installed {
            return Err(CapError::AlreadyMapped);
        }
        let paddr = match nucleus.pools.arch.page_tables.validate_mut(pt_id) {
            Err(e) => {
                return Err(e);
            },
            Ok(pt) => {
                pt.install_root(parent_id);
                pt.paddr()
            },
        };
        let ghost before = nucleus.pools.arch.address_spaces;
        let r = match nucleus.pools.arch.address_spaces.validate_mut(parent_id) {
            Err(e) => Err(e),
            Ok(space) => {
                space.set_translation_root(Some(paddr));
                Ok((0, 0))
            },
        };
        proof {
            assert forall|s: int| 0 <= s < old(nucleus).pools.arch.address_spaces.objects().len() implies
                #[trigger] bound_asid(nucleus.pools.arch.address_spaces, s)
                    == bound_asid(old(nucleus).pools.arch.address_spaces, s) by {
                assert(before.objects()[s] == old(nucleus).pools.arch.address_spaces.objects()[s]);
            }
            lemma_asids_consistent_frame(&old(nucleus).pools.arch, &nucleus.pools.arch);
        }
        r
    } else if parent_type.0 == ObjectType::PAGE_TABLE {
        if pt_id == parent_id {
            return Err(CapError::InvalidOperation);
        }
        nucleus.pools.arch.page_tables.validate_pair(pt_id, parent_id)?;
        let up = match nucleus.pools.arch.page_tables.validate(parent_id) {
            Err(e) => {
                return Err(e);
            },
            Ok(p) => *p,
        };
        let pt = match nucleus.pools.arch.page_tables.validate(pt_id) {
            Err(e) => {
                return Err(e);
            },
            Ok(pt) => *pt,
        };
        if pt.is_installed() {
            return Err(CapError::AlreadyMapped);
        }
        if !up.is_installed() {
            return Err(CapError::NotMapped);
        }
        if up.level() >= 3 {
            return Err(CapError::InvalidOperation);
        }
        let slot = nucleus.phys.install_table_entry(up.paddr(), up.level(), vaddr, pt.paddr())?;
        proof {
            crate::page_table::lemma_slot_index_bound(up.level, vaddr);
        }
        match nucleus.pools.arch.page_tables.validate_mut(pt_id) {
            Err(e) => Err(e),
            Ok(pt) => {
                pt.install_table(up.paddr(), up.level(), slot);
                Ok((0, 0))
            },
        }
    } else {
        Err(CapError::InvalidObjectType(parent_type))
    }
}

/// What `PageTable.Unmap` does (see the module documentation): only an
/// empty table is withdrawn, from its address space's root or from its
/// parent table, whose descriptor must still name it.
pub open spec fn pt_unmap_done(a: &Nucleus, b: &Nucleus, caller: CallerTable, key: RawKey, args: Seq<u64>,
    r: Result<(u64, u64), CapError>) -> bool {
    if args[0] != 0 || args[1] != 0 || args[2] != 0 || args[3] != 0 || args[4] != 0 || args[5] != 0 {
        r == Err::<(u64, u64), CapError>(CapError::InvalidOperation) && *b == *a
    } else {
        match typed_entry(a, caller, key, ObjectType::PAGE_TABLE) {
            Err(e) => r == Err::<(u64, u64), CapError>(e) && *b == *a,
            Ok(pe) => {
                let pt_id = entry_id(pe);
                match a.pools.arch.page_tables.live(pt_id) {
                    None => r == Err::<(u64, u64), CapError>(CapError::InvalidOperation) && *b == *a,
                    Some(pt) => {
                        let withdrawn = Some(AArch64PageTable { parent: PtParent::Uninstalled, ..pt });
                        if a.phys.has(pt.paddr) && exists|i: int| 0 <= i < 512 && #[trigger] a.phys.entry(pt.paddr, i) != 0 {
                            r == Err::<(u64, u64), CapError>(CapError::InvalidOperation) && *b == *a
                        } else {
                            match pt.parent {
                                PtParent::Uninstalled => r == Err::<(u64, u64), CapError>(CapError::NotMapped) && *b == *a,
                                PtParent::Root { address_space } => match a.pools.arch.address_spaces.live(address_space) {
                                    None => r == Err::<(u64, u64), CapError>(CapError::InvalidOperation) && *b == *a,
                                    Some(space) => if space.translation_root != Some(pt.paddr) {
                                        r == Err::<(u64, u64), CapError>(CapError::InvalidOperation) && *b == *a
                                    } else {
                                        &&& r == Ok::<(u64, u64), CapError>((0, 0))
                                        &&& mapping_frame(a, b)
                                        &&& b.phys == a.phys
                                        &&& b.hw == a.hw
                                        &&& b.pools.arch.asid_pools == a.pools.arch.asid_pools
                                        &&& pool_slot_updated(a.pools.arch.address_spaces, b.pools.arch.address_spaces,
                                            address_space.index as int)
                                        &&& b.pools.arch.address_spaces.objects()[address_space.index as int]
                                            == Some(AArch64AddressSpace { translation_root: None, ..space })
                                        &&& pool_slot_updated(a.pools.arch.page_tables, b.pools.arch.page_tables,
                                            pt_id.index as int)
                                        &&& b.pools.arch.page_tables.objects()[pt_id.index as int] == withdrawn
                                    },
                                },
                                PtParent::Table { parent_paddr, slot } => {
                                    let e = a.phys.entry(parent_paddr, slot as int);
                                    if !a.phys.has(parent_paddr) || e & Pte::VALID == 0 || e & ENTRY_ADDR_MASK != pt.paddr {
                                        r == Err::<(u64, u64), CapError>(CapError::InvalidOperation) && *b == *a
                                    } else {
                                        &&& r == Ok::<(u64, u64), CapError>((0, 0))
                                        &&& mapping_frame(a, b)
                                        &&& b.hw == a.hw
                                        &&& b.pools.arch.asid_pools == a.pools.arch.asid_pools
                                        &&& b.pools.arch.address_spaces == a.pools.arch.address_spaces
                                        &&& b.phys.contents() == a.phys.with_entry(parent_paddr, slot as int, 0)
                                        &&& pool_slot_updated(a.pools.arch.page_tables, b.pools.arch.page_tables,
                                            pt_id.index as int)
                                        &&& b.pools.arch.page_tables.objects()[pt_id.index as int] == withdrawn
                                    }
                                },
                            }
                        }
                    },
                }
            },
        }
    }
}

/// `PageTable.Unmap` (see [`pt_unmap_done`]).
pub fn page_table_unmap(nucleus: &mut Nucleus, caller: CallerTable, key: RawKey, args: &[u64; 6])
    -> (r: Result<(u64, u64), CapError>)
    requires
        old(nucleus).wf(),
    ensures
        final(nucleus).wf(),
        pt_unmap_done(old(nucleus), final(nucleus), caller, key, args@, r),
{
    if args[0] != 0 || args[1] != 0 || args[2] != 0 || args[3] != 0 || args[4] != 0 || args[5] != 0 {
        return Err(CapError::InvalidOperation);
    }
    let entry = lookup_typed(nucleus, caller, key, ObjectType::PAGE_TABLE)?;
    let pt_id = match entry.object_id() {
        Ok(id) => id,
        Err(e) => {
            return Err(e.with_key_operand(0));
        },
    };
    let pt = match nucleus.pools.arch.page_tables.validate(pt_id) {
        Err(e) => {
            return Err(e);
        },
        Ok(pt) => *pt,
    };
    if !nucleus.phys.table_is_empty(pt.paddr()) {
        return Err(CapError::InvalidOperation);
    }
    match pt.parent() {
        PtParent::Uninstalled => Err(CapError::NotMapped),
        PtParent::Root { address_space } => {
            let root = match nucleus.pools.arch.address_spaces.validate(address_space) {
                Err(e) => {
                    return Err(e);
                },
                Ok(space) => space.translation_root(),
            };
            if root != Some(pt.paddr()) {
                return Err(CapError::InvalidOperation);
            }
            let ghost before = nucleus.pools.arch.address_spaces;
            match nucleus.pools.arch.address_spaces.validate_mut(address_space) {
                Err(e) => {
                    return Err(e);
                },
                Ok(space) => space.set_translation_root(None),
            }
            proof {
                assert forall|s: int| 0 <= s < old(nucleus).pools.arch.address_spaces.objects().len() implies
                    #[trigger] bound_asid(nucleus.pools.arch.address_spaces, s)
                        == bound_asid(old(nucleus).pools.arch.address_spaces, s) by {
                    assert(before.objects()[s] == old(nucleus).pools.arch.address_spaces.objects()[s]);
                }
                lemma_asids_consistent_frame(&old(nucleus).pools.arch, &nucleus.pools.arch);
            }
            match nucleus.pools.arch.page_tables.validate_mut(pt_id) {
                Err(e) => Err(e),
                Ok(pt) => {
                    pt.uninstall();
                    Ok((0, 0))
                },
            }
        },
        PtParent::Table { parent_paddr, slot } => {
            nucleus.phys.clear_table_entry(parent_paddr, slot, pt.paddr())?;
            match nucleus.pools.arch.page_tables.validate_mut(pt_id) {
                Err(e) => Err(e),
                Ok(pt) => {
                    pt.uninstall();
                    Ok((0, 0))
                },
            }
        },
    }
}

/// What a `PageTable` invocation does: `Map` `0`, `Unmap` `1`; other
/// operations are invalid.
pub open spec fn page_table_done(a: &Nucleus, b: &Nucleus, caller: CallerTable, key: RawKey, op: u64, args: Seq<u64>,
    r: Result<(u64, u64), CapError>) -> bool {
    if op == 0 {
        pt_map_done(a, b, caller, key, args, r)
    } else if op == 1 {
        pt_unmap_done(a, b, caller, key, args, r)
    } else {
        r == Err::<(u64, u64), CapError>(CapError::InvalidOperation) && *b == *a
    }
}

/// Handle a `PageTable` invocation (see [`page_table_done`]).
pub fn page_table_invoke(nucleus: &mut Nucleus, caller: CallerTable, key: RawKey, op: u64, args: &[u64; 6])
    -> (r: Result<(u64, u64), CapError>)
    requires
        old(nucleus).wf(),
    ensures
        final(nucleus).wf(),
        page_table_done(old(nucleus), final(nucleus), caller, key, op, args@, r),
{
    match PageTableOp::from_op(op)? {
        PageTableOp::MapInto => page_table_map(nucleus, caller, key, args),
        PageTableOp::Unmap => page_table_unmap(nucleus, caller, key, args),
    }
}

/// The running thread's address space identity.
pub open spec fn current_space(a: &Nucleus) -> Result<ObjectId, CapError> {
    match a.current() {
        None => Err(CapError::InvalidDomain),
        Some(t) => Ok(t.address_space),
    }
}

/// The address space the invoked capability names, which must grant
/// `right`.
pub open spec fn space_operand(a: &Nucleus, caller: CallerTable, key: RawKey, right: u8) -> Result<ObjectId, CapError> {
    match typed_entry(a, caller, key, ObjectType::ADDRESS_SPACE) {
        Err(e) => Err(e),
        Ok(e) => if !bits_contain(e.rights.0, right) {
            Err(CapError::InsufficientRights)
        } else {
            Ok(entry_id(e))
        },
    }
}

/// Resolve the invoked address space (see [`space_operand`]).
fn resolve_space(nucleus: &Nucleus, caller: CallerTable, key: RawKey, right: u8) -> (r: Result<ObjectId, CapError>)
    requires
        nucleus.wf(),
    ensures
        r == space_operand(nucleus, caller, key, right),
{
    let entry = lookup_typed(nucleus, caller, key, ObjectType::ADDRESS_SPACE)?;
    if !entry.rights().has(right) {
        return Err(CapError::InsufficientRights);
    }
    match entry.object_id() {
        Ok(id) => Ok(id),
        Err(e) => Err(e.with_key_operand(0)),
    }
}

/// The running thread's address space (see [`current_space`]).
fn running_space(nucleus: &Nucleus) -> (r: Result<ObjectId, CapError>)
    requires
        nucleus.wf(),
    ensures
        r == current_space(nucleus),
{
    let index = match nucleus.current_thread {
        Some(i) => i,
        None => {
            return Err(CapError::InvalidDomain);
        },
    };
    match nucleus.pools.threads.get_live(index as usize) {
        Some(thread) => Ok(thread.address_space),
        None => Err(CapError::InvalidDomain),
    }
}

/// What `AddressSpace.Activate` does: the running thread's own address
/// space, with a root and a bound ASID, becomes the hardware translation
/// context.
pub open spec fn activate_done(a: &Nucleus, b: &Nucleus, caller: CallerTable, key: RawKey, args: Seq<u64>,
    r: Result<(u64, u64), CapError>) -> bool {
    if args[0] != 0 || args[1] != 0 || args[2] != 0 || args[3] != 0 || args[4] != 0 || args[5] != 0 {
        r == Err::<(u64, u64), CapError>(CapError::InvalidOperation) && *b == *a
    } else {
        match space_operand(a, caller, key, Rights::MAP) {
            Err(e) => r == Err::<(u64, u64), CapError>(e) && *b == *a,
            Ok(as_id) => match current_space(a) {
                Err(e) => r == Err::<(u64, u64), CapError>(e) && *b == *a,
                Ok(cur) => if as_id != cur {
                    r == Err::<(u64, u64), CapError>(CapError::InvalidOperation) && *b == *a
                } else {
                    match a.pools.arch.address_spaces.live(as_id) {
                        None => r == Err::<(u64, u64), CapError>(CapError::InvalidOperation) && *b == *a,
                        Some(space) => match (space.translation_root, space.asid) {
                            (Some(root), Some(asid)) => {
                                &&& r == Ok::<(u64, u64), CapError>((0, 0))
                                &&& b.hw@ == a.hw@.push(HwAction::InstallTranslationContext { root, asid })
                                &&& b.pools == a.pools && b.tables == a.tables && b.phys == a.phys
                                &&& b.pending == a.pending && b.scheduler == a.scheduler
                                &&& b.dcb_pages == a.dcb_pages && b.current_thread == a.current_thread
                            },
                            _ => r == Err::<(u64, u64), CapError>(CapError::NotMapped) && *b == *a,
                        },
                    }
                },
            },
        }
    }
}

/// `AddressSpace.Activate` (see [`activate_done`]).
pub fn activate(nucleus: &mut Nucleus, caller: CallerTable, key: RawKey, args: &[u64; 6]) -> (r: Result<(u64, u64), CapError>)
    requires
        old(nucleus).wf(),
    ensures
        final(nucleus).wf(),
        activate_done(old(nucleus), final(nucleus), caller, key, args@, r),
{
    if args[0] != 0 || args[1] != 0 || args[2] != 0 || args[3] != 0 || args[4] != 0 || args[5] != 0 {
        return Err(CapError::InvalidOperation);
    }
    let as_id = resolve_space(nucleus, caller, key, Rights::MAP)?;
    let current = running_space(nucleus)?;
    if as_id != current {
        return Err(CapError::InvalidOperation);
    }
    let (root, asid) = match nucleus.pools.arch.address_spaces.validate(as_id) {
        Err(e) => {
            return Err(e);
        },
        Ok(space) => match (space.translation_root(), space.asid()) {
            (Some(root), Some(asid)) => (root, asid),
            _ => {
                return Err(CapError::NotMapped);
            },
        },
    };
    nucleus.hw.push(HwAction::InstallTranslationContext { root, asid });
    Ok((0, 0))
}

/// What `AddressSpace.Retire` does: an address space without a root that
/// the running thread does not run in is torn down; a bound ASID is
/// withdrawn from the TLB and released to the boot ASID pool.
pub open spec fn retire_space_done(a: &Nucleus, b: &Nucleus, caller: CallerTable, key: RawKey, args: Seq<u64>,
    r: Result<(u64, u64), CapError>) -> bool {
    if args[0] != 0 || args[1] != 0 || args[2] != 0 || args[3] != 0 || args[4] != 0 || args[5] != 0 {
        r == Err::<(u64, u64), CapError>(CapError::InvalidOperation) && *b == *a
    } else {
        match space_operand(a, caller, key, Rights::RETIRE) {
            Err(e) => r == Err::<(u64, u64), CapError>(e) && *b == *a,
            Ok(as_id) => match current_space(a) {
                Err(e) => r == Err::<(u64, u64), CapError>(e) && *b == *a,
                Ok(cur) => if as_id == cur {
                    r == Err::<(u64, u64), CapError>(CapError::InvalidOperation) && *b == *a
                } else {
                    match a.pools.arch.address_spaces.live(as_id) {
                        None => r == Err::<(u64, u64), CapError>(CapError::InvalidOperation) && *b == *a,
                        Some(space) => if space.translation_root is Some {
                            r == Err::<(u64, u64), CapError>(CapError::InvalidOperation) && *b == *a
                        } else {
                            &&& r == Ok::<(u64, u64), CapError>((0, 0))
                            &&& b.pools.threads == a.pools.threads
                            &&& b.pools.notifications == a.pools.notifications
                            &&& b.pools.event_counts == a.pools.event_counts
                            &&& b.pools.arch.page_tables == a.pools.arch.page_tables
                            &&& b.tables == a.tables && b.phys == a.phys
                            &&& b.pending == a.pending && b.scheduler == a.scheduler
                            &&& b.dcb_pages == a.dcb_pages && b.current_thread == a.current_thread
                            &&& a.pools.arch.address_spaces.evolves_to(&b.pools.arch.address_spaces)
                            &&& b.pools.arch.address_spaces.objects() == a.pools.arch.address_spaces.objects().update(
                                as_id.index as int, None)
                            &&& b.pools.arch.address_spaces.meta() == a.pools.arch.address_spaces.meta().update(
                                as_id.index as int, SlotMeta { state: SlotState::Free, generation: as_id.generation })
                            &&& match space.asid {
                                None => b.hw == a.hw && b.pools.arch.asid_pools == a.pools.arch.asid_pools,
                                Some(asid) => {
                                    &&& b.hw@ == a.hw@.push(HwAction::InvalidateTlbAsid { asid })
                                    &&& if (0 < a.pools.arch.asid_pools.capacity())
                                        && a.pools.arch.asid_pools.meta()[0].state == SlotState::Live {
                                        let pool = a.pools.arch.asid_pools.objects()[0].unwrap();
                                        &&& pool_slot_updated(a.pools.arch.asid_pools, b.pools.arch.asid_pools, 0)
                                        &&& forall|c: int| 0 <= c < AArch64ASIDPool::ASIDS_PER_POOL ==>
                                            #[trigger] b.pools.arch.asid_pools.objects()[0].unwrap().is_taken(c)
                                            == (c != asid && pool.is_taken(c))
                                    } else {
                                        b.pools.arch.asid_pools == a.pools.arch.asid_pools
                                    }
                                },
                            }
                        },
                    }
                },
            },
        }
    }
}

/// On a consistent nucleus, a successful `Retire` of an address space bound
/// to an ASID returns that ASID to the boot pool: it is free there
/// afterwards and every other ASID keeps its state.
pub proof fn lemma_retire_frees_bound_asid(a: &Nucleus, b: &Nucleus, caller: CallerTable, key: RawKey,
    args: Seq<u64>, r: Result<(u64, u64), CapError>)
    requires
        a.wf(),
        retire_space_done(a, b, caller, key, args, r),
        r is Ok,
        bound_asid(a.pools.arch.address_spaces, space_operand(a, caller, key, Rights::RETIRE)->Ok_0.index as int)
            is Some,
    ensures
        ({
            let x = bound_asid(a.pools.arch.address_spaces,
                space_operand(a, caller, key, Rights::RETIRE)->Ok_0.index as int)->Some_0;
            &&& b.pools.arch.asid_pools.objects()[0] is Some
            &&& !b.pools.arch.asid_pools.objects()[0].unwrap().is_taken(x as int)
            &&& forall|c: int| 0 <= c < AArch64ASIDPool::ASIDS_PER_POOL && c != x ==>
                #[trigger] b.pools.arch.asid_pools.objects()[0].unwrap().is_taken(c)
                == a.pools.arch.asid_pools.objects()[0].unwrap().is_taken(c)
        }),
{
    let as_id = space_operand(a, caller, key, Rights::RETIRE)->Ok_0;
    let i = as_id.index as int;
    assert(a.pools.arch.address_spaces.live(as_id) is Some);
    assert(bound_asid(a.pools.arch.address_spaces, i) is Some);
}

/// `AddressSpace.Retire` (see [`retire_space_done`]).
pub fn retire_space(nucleus: &mut Nucleus, caller: CallerTable, key: RawKey, args: &[u64; 6])
    -> (r: Result<(u64, u64), CapError>)
    requires
        old(nucleus).wf(),
    ensures
        final(nucleus).wf(),
        retire_space_done(old(nucleus), final(nucleus), caller, key, args@, r),
{
    if args[0] != 0 || args[1] != 0 || args[2] != 0 || args[3] != 0 || args[4] != 0 || args[5] != 0 {
        return Err(CapError::InvalidOperation);
    }
    let as_id = resolve_space(nucleus, caller, key, Rights::RETIRE)?;
    let current = running_space(nucleus)?;
    if as_id == current {
        return Err(CapError::InvalidOperation);
    }
    let bound = match nucleus.pools.arch.address_spaces.validate(as_id) {
        Err(e) => {
            return Err(e);
        },
        Ok(space) => {
            if space.translation_root().is_some() {
                return Err(CapError::InvalidOperation);
            }
            space.asid()
        },
    };
    match bound {
        Some(asid) => {
            nucleus.hw.push(HwAction::InvalidateTlbAsid { asid });
            match nucleus.pools.arch.asid_pools.get_live_mut(0) {
                Some(pool) => {
                    pool.release(asid);
                },
                None => {},
            }
        },
        None => {},
    }
    let r = match nucleus.pools.arch.address_spaces.deallocate(as_id) {
        Ok(()) => Ok((0, 0)),
        Err(e) => Err(e.with_key_operand(0)),
    };
    proof {
        let a = old(nucleus).pools.arch;
        assert(bound_asid(a.address_spaces, as_id.index as int) == bound);
        assert(nucleus.pools.arch.address_spaces.objects()
            =~= a.address_spaces.objects().update(as_id.index as int, None));
        lemma_asids_after_retire(&a, &nucleus.pools.arch, as_id.index as int);
    }
    r
}

/// What `ASIDPool.Assign` does: the lowest free ASID of the pool is bound
/// to an address space that has a root and no ASID yet, and returned.
pub open spec fn assign_done(a: &Nucleus, b: &Nucleus, caller: CallerTable, key: RawKey, op: u64, args: Seq<u64>,
    r: Result<(u64, u64), CapError>) -> bool {
    if op != 0 || args[1] != 0 || args[2] != 0 || args[3] != 0 || args[4] != 0 || args[5] != 0 {
        r == Err::<(u64, u64), CapError>(CapError::InvalidOperation) && *b == *a
    } else {
        match typed_entry(a, caller, key, ObjectType::ASID_POOL) {
            Err(e) => r == Err::<(u64, u64), CapError>(e) && *b == *a,
            Ok(pe) => if !bits_contain(pe.rights.0, Rights::GRANT) {
                r == Err::<(u64, u64), CapError>(CapError::InsufficientRights) && *b == *a
            } else {
                match typed_entry_at(a, caller, wire_key(args[0]), 2, ObjectType::ADDRESS_SPACE) {
                    Err(e) => r == Err::<(u64, u64), CapError>(e) && *b == *a,
                    Ok(ase) => if !bits_contain(ase.rights.0, Rights::MAP) {
                        r == Err::<(u64, u64), CapError>(CapError::InsufficientRights) && *b == *a
                    } else {
                        let pool_id = entry_id(pe);
                        let as_id = entry_id(ase);
                        match (a.pools.arch.asid_pools.live(pool_id), a.pools.arch.address_spaces.live(as_id)) {
                            (Some(pool), Some(space)) => if space.translation_root is None {
                                r == Err::<(u64, u64), CapError>(CapError::NotMapped) && *b == *a
                            } else if space.asid is Some {
                                r == Err::<(u64, u64), CapError>(CapError::AlreadyMapped) && *b == *a
                            } else if forall|c: int| 0 <= c < AArch64ASIDPool::ASIDS_PER_POOL ==> #[trigger] pool.is_taken(c) {
                                &&& r == Err::<(u64, u64), CapError>(CapError::ASIDPoolExhausted)
                                &&& pool_slot_updated(a.pools.arch.asid_pools, b.pools.arch.asid_pools, pool_id.index as int)
                                &&& b.pools.arch.asid_pools.objects()[pool_id.index as int].unwrap().words() == pool.words()
                                &&& b.pools.threads == a.pools.threads
                                &&& b.pools.notifications == a.pools.notifications
                                &&& b.pools.event_counts == a.pools.event_counts
                                &&& b.pools.arch.page_tables == a.pools.arch.page_tables
                                &&& b.pools.arch.address_spaces == a.pools.arch.address_spaces
                                &&& b.tables == a.tables && b.phys == a.phys && b.hw == a.hw
                                &&& b.pending == a.pending && b.scheduler == a.scheduler
                                &&& b.dcb_pages == a.dcb_pages && b.current_thread == a.current_thread
                            } else {
                                exists|asid: u16| {
                                    &&& r == Ok::<(u64, u64), CapError>((asid as u64, 0))
                                    &&& asid < AArch64ASIDPool::ASIDS_PER_POOL
                                    &&& !pool.is_taken(asid as int)
                                    &&& forall|c: int| 0 <= c < asid ==> #[trigger] pool.is_taken(c)
                                    &&& pool_slot_updated(a.pools.arch.asid_pools, b.pools.arch.asid_pools, pool_id.index as int)
                                    &&& forall|c: int| 0 <= c < AArch64ASIDPool::ASIDS_PER_POOL ==>
                                        #[trigger] b.pools.arch.asid_pools.objects()[pool_id.index as int].unwrap().is_taken(c)
                                        == (c == asid || pool.is_taken(c))
                                    &&& pool_slot_updated(a.pools.arch.address_spaces, b.pools.arch.address_spaces, as_id.index as int)
                                    &&& b.pools.arch.address_spaces.objects()[as_id.index as int]
                                        == Some(AArch64AddressSpace { asid: Some(asid), ..space })
                                }
                                && b.pools.threads == a.pools.threads
                                && b.pools.notifications == a.pools.notifications
                                && b.pools.event_counts == a.pools.event_counts
                                && b.pools.arch.page_tables == a.pools.arch.page_tables
                                && b.tables == a.tables && b.phys == a.phys && b.hw == a.hw
                                && b.pending == a.pending && b.scheduler == a.scheduler
                                && b.dcb_pages == a.dcb_pages && b.current_thread == a.current_thread
                            },
                            _ => r == Err::<(u64, u64), CapError>(CapError::InvalidOperation) && *b == *a,
                        }
                    },
                }
            },
        }
    }
}

/// Handle an `ASIDPool` invocation: `Assign` `0` (see [`assign_done`]).
pub fn asid_pool_invoke(nucleus: &mut Nucleus, caller: CallerTable, key: RawKey, op: u64, args: &[u64; 6])
    -> (r: Result<(u64, u64), CapError>)
    requires
        old(nucleus).wf(),
    ensures
        final(nucleus).wf(),
        assign_done(old(nucleus), final(nucleus), caller, key, op, args@, r),
{
    let ASIDPoolOp::Assign = ASIDPoolOp::from_op(op)?;
    let as_key = RawKey::from_wire(args[0]);
    if args[1] != 0 || args[2] != 0 || args[3] != 0 || args[4] != 0 || args[5] != 0 {
        return Err(CapError::InvalidOperation);
    }
    let pool_entry = lookup_typed(nucleus, caller, key, ObjectType::ASID_POOL)?;
    if !pool_entry.rights().has(Rights::GRANT) {
        return Err(CapError::InsufficientRights);
    }
    let pool_id = match pool_entry.object_id() {
        Ok(id) => id,
        Err(e) => {
            return Err(e.with_key_operand(0));
        },
    };
    let as_entry = lookup_typed_at(nucleus, caller, as_key, 2, ObjectType::ADDRESS_SPACE)?;
    if !as_entry.rights().has(Rights::MAP) {
        return Err(CapError::InsufficientRights);
    }
    let as_id = match as_entry.object_id() {
        Ok(id) => id,
        Err(e) => {
            return Err(e.with_key_operand(2));
        },
    };
    match nucleus.pools.arch.asid_pools.validate(pool_id) {
        Err(e) => {
            return Err(e);
        },
        Ok(_) => {},
    }
    let space = match nucleus.pools.arch.address_spaces.validate(as_id) {
        Err(e) => {
            return Err(e);
        },
        Ok(space) => *space,
    };
    if space.translation_root().is_none() {
        return Err(CapError::NotMapped);
    }
    if space.asid().is_some() {
        return Err(CapError::AlreadyMapped);
    }
    let allocated = match nucleus.pools.arch.asid_pools.validate_mut(pool_id) {
        Err(e) => {
            return Err(e);
        },
        Ok(pool) => pool.allocate(),
    };
    let asid = match allocated {
        Some(a) => a,
        None => {
            proof {
                lemma_asids_same_bitmap(&old(nucleus).pools.arch, &nucleus.pools.arch, pool_id.index as int);
            }
            return Err(CapError::ASIDPoolExhausted);
        },
    };
    let r = match nucleus.pools.arch.address_spaces.validate_mut(as_id) {
        Err(e) => Err(e),
        Ok(space) => {
            space.set_asid(Some(asid));
            Ok((asid as u64, 0))
        },
    };
    proof {
        let a = old(nucleus).pools.arch;
        assert(nucleus.pools.arch.address_spaces.objects() =~= a.address_spaces.objects().update(as_id.index as int,
            Some(AArch64AddressSpace { asid: Some(asid), ..a.address_spaces.objects()[as_id.index as int].unwrap() })));
        lemma_asids_after_assign(&a, &nucleus.pools.arch, pool_id.index as int, as_id.index as int, asid);
    }
    r
}

/// What an `AddressSpace` invocation does: `Activate` `0`, `Retire` `1`;
/// other operations are invalid.
pub open spec fn address_space_done(a: &Nucleus, b: &Nucleus, caller: CallerTable, key: RawKey, op: u64, args: Seq<u64>,
    r: Result<(u64, u64), CapError>) -> bool {
    if op == 0 {
        activate_done(a, b, caller, key, args, r)
    } else if op == 1 {
        retire_space_done(a, b, caller, key, args, r)
    } else {
        r == Err::<(u64, u64), CapError>(CapError::InvalidOperation) && *b == *a
    }
}

/// Handle an `AddressSpace` invocation (see [`address_space_done`]).
pub fn address_space_invoke(nucleus: &mut Nucleus, caller: CallerTable, key: RawKey, op: u64, args: &[u64; 6])
    -> (r: Result<(u64, u64), CapError>)
    requires
        old(nucleus).wf(),
    ensures
        final(nucleus).wf(),
        address_space_done(old(nucleus), final(nucleus), caller, key, op, args@, r),
{
    match VSpaceOp::from_op(op)? {
        VSpaceOp::Activate => activate(nucleus, caller, key, args),
        VSpaceOp::Retire => retire_space(nucleus, caller, key, args),
    }
}

} // verus!
