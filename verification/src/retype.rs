//! `Untyped.Retype` `0`: create objects from an Untyped region's unused
//! range.
//!
//! Wire schema: `x2` object kind, `x3` `size_bits`, `x4` count, `x5`
//! destination-table key, `x6` first destination slot, `x7` requested
//! rights; returns the first destination-local key. Authority: `WRITE` on
//! the invoked Untyped, `INSTALL` on the destination table.
//!
//! Creatable kinds: `KeyTable` (`size_bits` is its capacity exponent),
//! `Frame` (an architecture frame size; the frame is its own alignment),
//! `PageTable` (exactly 4 KiB), and the pool-backed synchronization objects
//! `Notification` and `EventCount` (`size_bits` zero; no region bytes are
//! used). Device regions are refused as sources.
//!
//! Transaction: validate, reserve the aligned run within the region's
//! usable range, check every destination slot, allocate pool slots, create
//! each object (a fresh table, a zeroed translation table, or a frame whose
//! contents the platform layer zeroes) and install its capability, and
//! advance the watermark last. A failure before the installations leaves
//! the region and the destination table unchanged.

use vstd::prelude::*;
use crate::access::{spec_tag_byte, ObjectId};
use crate::arch::{AArch64, AArch64PageTable, PtParent};
use crate::error::CapError;
use crate::event_count::EventCount;
use crate::invoke::{cap_entry, lookup_entry};
use crate::key::{wire_key, DomainId, KeySlot, RawKey};
use crate::key_entry::{FramePayload, KeyEntry, KeyPayload, KeyTablePayload, ObjectPayload, RegionPayload};
use crate::key_table::{
    fresh_view, installed_key, installed_run, key_check_in, lemma_key_check_local, lemma_run_check_ok, view_sized,
    lemma_run_keeps_resolved, replaced, run_check, spec_carve_size, vacancy_check, CallerTable, KeyTable, KeyTableView,
};
use crate::nucleus::{HwAction, Nucleus, NucleusPools};
use crate::notification::Notification;
use crate::object_pool::{lemma_pool_grew_weaken, pool_grew, ObjectPool};
use crate::object_type::{ArchType, ObjectType};
use crate::page_table::PhysTables;
use crate::rights::{bits_contain, Rights};
use crate::store::AddrStore;
use crate::table_ops::{resolve_table_cap, table_cap_in, tables_wf, views, TableCap};

verus! {

/// How one created object occupies the region.
#[derive(Clone, Copy, Debug, PartialEq, Eq, Structural)]
pub enum Carve {
    /// A capability table, written at the carve.
    KeyTable,
    /// A raw physical frame, zeroed before its capability is installed.
    Frame,
    /// A zeroed 4 KiB translation table, with pool-held metadata.
    PageTable,
    /// A pool-held notification; no region bytes.
    Notification,
    /// A pool-held event count; no region bytes.
    EventCount,
}

/// How a kind with `size_bits` is carved: its byte size and alignment. For
/// a `KeyTable`, `size_bits` is the table's capacity exponent: the carve
/// holds the header and `2^size_bits` entries with their incarnation
/// counters, and the exponent must lie between `KeyTable::MIN_SIZE_BITS`
/// and `KeyTable::MAX_SIZE_BITS` (`InvalidSize` otherwise, zero included,
/// since a table always has a capacity of its own).
pub open spec fn carve_of(kind: u8, size_bits: u8) -> Result<(Carve, u64, u64), CapError> {
    if kind == ObjectType::KEY_TABLE {
        if size_bits < KeyTable::MIN_SIZE_BITS || size_bits > KeyTable::MAX_SIZE_BITS {
            Err(CapError::InvalidSize(size_bits as usize))
        } else {
            Ok((Carve::KeyTable, spec_carve_size(size_bits) as u64, 32))
        }
    } else if kind == ObjectType::FRAME {
        if size_bits == 12 {
            Ok((Carve::Frame, 4096, 4096))
        } else if size_bits == 21 {
            Ok((Carve::Frame, 0x20_0000, 0x20_0000))
        } else if size_bits == 30 {
            Ok((Carve::Frame, 0x4000_0000, 0x4000_0000))
        } else {
            Err(CapError::InvalidFrameSize(size_bits as usize))
        }
    } else if kind == ObjectType::PAGE_TABLE {
        if size_bits == 12 {
            Ok((Carve::PageTable, 4096, 4096))
        } else {
            Err(CapError::InvalidSize(size_bits as usize))
        }
    } else if kind == ObjectType::NOTIFICATION || kind == ObjectType::EVENT_COUNT {
        if size_bits != 0 {
            Err(CapError::InvalidSize(size_bits as usize))
        } else if kind == ObjectType::NOTIFICATION {
            Ok((Carve::Notification, 0, 1))
        } else {
            Ok((Carve::EventCount, 0, 1))
        }
    } else {
        Err(CapError::InvalidObjectType(ObjectType(kind)))
    }
}

/// See [`carve_of`].
pub fn carve_for(kind: u8, size_bits: u8) -> (r: Result<(Carve, u64, u64), CapError>)
    ensures
        r == carve_of(kind, size_bits),
{
    if kind == ObjectType::KEY_TABLE {
        if size_bits < KeyTable::MIN_SIZE_BITS || size_bits > KeyTable::MAX_SIZE_BITS {
            return Err(CapError::InvalidSize(size_bits as usize));
        }
        let bytes = KeyTable::carve_size(size_bits);
        assert(spec_carve_size(size_bits) <= 0x1_0000_0000) by {
            if size_bits < 20 {
                vstd::arithmetic::power2::lemma_pow2_strictly_increases(size_bits as nat, 20);
            }
            vstd::arithmetic::power2::lemma2_to64();
        }
        Ok((Carve::KeyTable, bytes as u64, 32))
    } else if kind == ObjectType::FRAME {
        let bytes = AArch64::validate_frame_size(size_bits)?;
        Ok((Carve::Frame, bytes as u64, bytes as u64))
    } else if kind == ObjectType::PAGE_TABLE {
        let bytes = AArch64::validate_retype(ArchType::PageTable, size_bits)?;
        Ok((Carve::PageTable, bytes as u64, bytes as u64))
    } else if kind == ObjectType::NOTIFICATION || kind == ObjectType::EVENT_COUNT {
        if size_bits != 0 {
            return Err(CapError::InvalidSize(size_bits as usize));
        }
        if kind == ObjectType::NOTIFICATION {
            Ok((Carve::Notification, 0, 1))
        } else {
            Ok((Carve::EventCount, 0, 1))
        }
    } else {
        Err(CapError::InvalidObjectType(ObjectType(kind)))
    }
}

/// `x` rounded up to a multiple of `a`.
pub open spec fn round_up(x: int, a: int) -> int {
    ((x + a - 1) / a) * a
}

/// Rounding up lands on the next multiple at or above `x`.
pub proof fn lemma_round_up(x: int, a: int)
    requires
        x >= 0,
        a >= 1,
    ensures
        x <= round_up(x, a) <= x + a - 1,
        round_up(x, a) % a == 0,
{
    let q = (x + a - 1) / a;
    vstd::arithmetic::div_mod::lemma_fundamental_div_mod(x + a - 1, a);
    vstd::arithmetic::div_mod::lemma_mod_pos_bound(x + a - 1, a);
    vstd::arithmetic::div_mod::lemma_mod_multiples_basic(q, a);
    vstd::arithmetic::mul::lemma_mul_is_commutative(q, a);
}

/// See [`round_up`].
pub fn align_up(x: u64, a: u64) -> (r: u64)
    requires
        a >= 1,
        x + a - 1 <= u64::MAX,
    ensures
        r == round_up(x as int, a as int),
        x <= r <= x + a - 1,
        r % a == 0,
{
    let q = (x + (a - 1)) / a;
    proof {
        lemma_round_up(x as int, a as int);
    }
    q * a
}

/// What a validated Retype will do: the carve, the run of destination
/// slots, and where in the region the objects go.
#[derive(Clone, Copy, Debug, PartialEq, Eq, Structural)]
pub struct RetypePlan {
    pub carve: Carve,
    pub kind: ObjectType,
    pub size_bits: u8,
    pub count: u32,
    pub dst: TableCap,
    pub first_slot: u32,
    pub requested: Rights,
    pub region: RegionPayload,
    /// Physical address of the first object.
    pub base: u64,
    /// Bytes per object.
    pub obj_size: u64,
    /// The region offset the watermark advances to.
    pub end: u64,
}

/// The region offset up to which the watermark can be represented: the
/// region's size, but at most `u32::MAX` units of 16 bytes.
pub open spec fn usable_end(region: RegionPayload) -> int {
    let size = vstd::arithmetic::power2::pow2(region.size_bits as nat) as int;
    if size < 0xF_FFFF_FFF0 { size } else { 0xF_FFFF_FFF0 }
}

/// The validation and reservation steps of Retype: argument decoding, the
/// carve, the Untyped capability and its authority, the destination table
/// capability and its authority, the region extent, and whether the
/// aligned run fits the region's usable range.
pub open spec fn retype_plan(n: &Nucleus, caller: CallerTable, untyped_key: RawKey, args: Seq<u64>)
    -> Result<RetypePlan, CapError> {
    if args[0] > 255 || args[1] > 255 || args[2] > u32::MAX || args[4] > u32::MAX || args[5] > 255 {
        Err(CapError::InvalidOperation)
    } else {
        let kind = args[0] as u8;
        let size_bits = args[1] as u8;
        let count = args[2] as u32;
        match carve_of(kind, size_bits) {
            Err(e) => Err(e),
            Ok((carve, obj_size, align)) => if count == 0 {
                Err(CapError::InvalidOperation)
            } else {
                match cap_entry(views(n.tables@), caller, untyped_key, 0) {
                    Err(e) => Err(e),
                    Ok(ue) => if ue.obj_type.0 != ObjectType::UNTYPED {
                        Err(CapError::TypeMismatch { expected: ObjectType(ObjectType::UNTYPED), found: ue.obj_type })
                    } else if !bits_contain(ue.rights.0, Rights::WRITE) {
                        Err(CapError::InsufficientRights)
                    } else if ue.region().is_device {
                        Err(CapError::InvalidObjectType(ObjectType(kind)))
                    } else {
                        match table_cap_in(views(n.tables@)[caller.addr], wire_key(args[3]), caller.guard, 5) {
                            Err(e) => Err(e),
                            Ok(dst) => if !bits_contain(dst.rights.0, Rights::INSTALL) {
                                Err(CapError::InsufficientRights)
                            } else {
                                let region = ue.region();
                                let size = vstd::arithmetic::power2::pow2(region.size_bits as nat) as int;
                                if region.size_bits >= 64 || region.paddr + size > u64::MAX {
                                    Err(CapError::InvalidSize(region.size_bits as usize))
                                } else {
                                    let misalign = region.paddr as int % align as int;
                                    let aligned_wm = round_up(misalign + region.spec_watermark(), align as int) - misalign;
                                    let total = obj_size * count;
                                    if total > u64::MAX || aligned_wm + total > u64::MAX {
                                        Err(CapError::InvalidSize(0))
                                    } else {
                                        let end = round_up(aligned_wm + total, align as int);
                                        if end > usable_end(region) {
                                            Err(CapError::InsufficientMemory)
                                        } else {
                                            Ok(RetypePlan {
                                                carve,
                                                kind: ObjectType(kind),
                                                size_bits,
                                                count,
                                                dst,
                                                first_slot: args[4] as u32,
                                                requested: Rights(args[5] as u8),
                                                region,
                                                base: (region.paddr + aligned_wm) as u64,
                                                obj_size,
                                                end: end as u64,
                                            })
                                        }
                                    }
                                }
                            },
                        }
                    },
                }
            },
        }
    }
}

/// What a validated plan guarantees: a non-empty run whose objects all
/// have addresses, a commit offset the watermark can store, a carve that
/// matches the kind, and an ordinary-memory source.
pub open spec fn plan_sound(p: RetypePlan) -> bool {
    &&& p.count >= 1
    &&& p.base + p.obj_size * p.count <= u64::MAX
    &&& p.end % 16 == 0
    &&& p.end / 16 <= u32::MAX
    &&& !p.region.is_device
    &&& match p.carve {
        Carve::KeyTable => p.kind.0 == ObjectType::KEY_TABLE && p.obj_size >= 1
            && KeyTable::MIN_SIZE_BITS <= p.size_bits <= KeyTable::MAX_SIZE_BITS,
        Carve::Frame => p.kind.0 == ObjectType::FRAME && p.obj_size >= 1 && p.size_bits < 32,
        Carve::PageTable => p.kind.0 == ObjectType::PAGE_TABLE && p.obj_size >= 1,
        Carve::Notification => p.kind.0 == ObjectType::NOTIFICATION,
        Carve::EventCount => p.kind.0 == ObjectType::EVENT_COUNT,
    }
}

/// A run committed at `end`, a multiple of its alignment (one of the
/// carve alignments), ends on the watermark's 16-byte granularity; a
/// byteless run commits the watermark it started from.
proof fn lemma_commit_offset(end: int, align: int, state: u32, obj_size: int, count: int)
    requires
        align == 1 || align == 32 || align == 4096 || align == 0x20_0000 || align == 0x4000_0000,
        end % align == 0,
        align == 1 ==> obj_size == 0 && end == state * 16 + obj_size * count,
    ensures
        end % 16 == 0,
{
    if align == 1 {
        vstd::arithmetic::mul::lemma_mul_basics(count);
        vstd::arithmetic::div_mod::lemma_mod_multiples_basic(state as int, 16);
    } else {
        let m = align / 16;
        assert(align == 16 * m);
        vstd::arithmetic::div_mod::lemma_mod_mod(end, 16, m);
    }
}

/// A table carve holds at least its header, and fits in 4 GiB.
proof fn lemma_table_carve_nonempty(size_bits: u8)
    requires
        size_bits <= KeyTable::MAX_SIZE_BITS,
    ensures
        32 <= spec_carve_size(size_bits) <= 0x1_0000_0000,
{
    if size_bits < 20 {
        vstd::arithmetic::power2::lemma_pow2_strictly_increases(size_bits as nat, 20);
    }
    vstd::arithmetic::power2::lemma2_to64();
    let x = KeyTable::HEADER_SIZE as int + crate::key_table::spec_capacity_for(size_bits) * 36 + 31;
    vstd::arithmetic::power2::lemma_pow2_pos(size_bits as nat);
    assert(x >= 63);
    vstd::arithmetic::div_mod::lemma_fundamental_div_mod(x, 32);
    vstd::arithmetic::div_mod::lemma_mod_pos_bound(x, 32);
    assert(32 <= (x / 32) * 32 <= x) by (nonlinear_arith)
        requires
            x == 32 * (x / 32) + x % 32,
            0 <= x % 32 < 32,
            x >= 63;
}

/// Retype carves only unused bytes of its region and never moves the
/// watermark back: every object of a validated run lies at or above the
/// current watermark, ends at or below the new one, starts where the
/// previous object ends, and is aligned as its kind requires (a frame or a
/// page table to its own size); the new watermark stays within the region.
pub proof fn lemma_retype_carves_unused_range(n: &Nucleus, caller: CallerTable, untyped_key: RawKey, args: Seq<u64>)
    requires
        retype_plan(n, caller, untyped_key, args) is Ok,
    ensures
        ({
            let plan = retype_plan(n, caller, untyped_key, args)->Ok_0;
            let region = plan.region;
            let align = carve_of(plan.kind.0, plan.size_bits)->Ok_0.2;
            &&& region.spec_watermark() <= plan.end <= region.spec_size()
            &&& forall|i: int| 0 <= i < plan.count ==> {
                &&& region.paddr + region.spec_watermark() <= #[trigger] carve_addr(plan, i)
                &&& carve_addr(plan, i) + plan.obj_size <= region.paddr + plan.end
                &&& (carve_addr(plan, i) as int) % (align as int) == 0
                &&& i + 1 < plan.count ==> carve_addr(plan, i + 1) == carve_addr(plan, i) + plan.obj_size
            }
        }),
{
    let plan = retype_plan(n, caller, untyped_key, args)->Ok_0;
    let region = plan.region;
    let (carve, obj_size, align) = carve_of(plan.kind.0, plan.size_bits)->Ok_0;
    let a = align as int;
    let misalign = region.paddr as int % a;
    let wm = region.spec_watermark();
    let rounded = round_up(misalign + wm, a);
    let aligned_wm = rounded - misalign;
    let total = obj_size * plan.count;
    vstd::arithmetic::div_mod::lemma_mod_pos_bound(region.paddr as int, a);
    lemma_round_up(misalign + wm, a);
    lemma_round_up(aligned_wm + total, a);
    vstd::arithmetic::div_mod::lemma_fundamental_div_mod(region.paddr as int, a);
    assert(plan.base == region.paddr + aligned_wm);
    // the base is aligned: the region's aligned part plus a multiple
    assert((plan.base as int) % a == 0) by {
        let q = region.paddr as int / a;
        assert(plan.base == a * q + rounded);
        let m = rounded / a;
        vstd::arithmetic::div_mod::lemma_fundamental_div_mod(rounded, a);
        assert(plan.base == a * (q + m)) by (nonlinear_arith)
            requires
                plan.base == a * q + rounded,
                rounded == a * m + rounded % a,
                rounded % a == 0;
        vstd::arithmetic::div_mod::lemma_mod_multiples_basic(q + m, a);
        vstd::arithmetic::mul::lemma_mul_is_commutative(q + m, a);
    }
    // each object's size is a multiple of the alignment
    let k = obj_size as int / a;
    assert(obj_size == a * k) by {
        if carve == Carve::KeyTable {
            let x = KeyTable::HEADER_SIZE as int + crate::key_table::spec_capacity_for(plan.size_bits) * 36 + 31;
            vstd::arithmetic::power2::lemma_pow2_pos(plan.size_bits as nat);
            lemma_table_carve_nonempty(plan.size_bits);
            vstd::arithmetic::mul::lemma_mul_is_commutative(x / 32, 32);
            vstd::arithmetic::div_mod::lemma_div_multiples_vanish(x / 32, 32);
            assert(obj_size == a * k);
        } else if carve == Carve::Notification || carve == Carve::EventCount {
            assert(obj_size == 0 && a == 1);
        } else {
            assert(obj_size as int == a);
            vstd::arithmetic::div_mod::lemma_div_by_self(a);
        }
    }
    assert forall|i: int| 0 <= i < plan.count implies {
        &&& region.paddr + region.spec_watermark() <= #[trigger] carve_addr(plan, i)
        &&& carve_addr(plan, i) + plan.obj_size <= region.paddr + plan.end
        &&& (carve_addr(plan, i) as int) % (align as int) == 0
        &&& i + 1 < plan.count ==> carve_addr(plan, i + 1) == carve_addr(plan, i) + plan.obj_size
    } by {
        vstd::arithmetic::mul::lemma_mul_inequality(i + 1, plan.count as int, obj_size as int);
        vstd::arithmetic::mul::lemma_mul_is_distributive_add(obj_size as int, i, 1);
        vstd::arithmetic::mul::lemma_mul_is_commutative(i + 1, obj_size as int);
        vstd::arithmetic::mul::lemma_mul_is_commutative(plan.count as int, obj_size as int);
        assert(obj_size * i >= 0) by (nonlinear_arith)
            requires
                i >= 0;
        let off = obj_size * i;
        assert(off == a * (k * i)) by (nonlinear_arith)
            requires
                off == obj_size * i,
                obj_size == a * k;
        let qb = plan.base as int / a;
        vstd::arithmetic::div_mod::lemma_fundamental_div_mod(plan.base as int, a);
        assert(plan.base + off == a * (qb + k * i)) by (nonlinear_arith)
            requires
                plan.base == a * qb + (plan.base as int) % a,
                (plan.base as int) % a == 0,
                off == a * (k * i);
        vstd::arithmetic::div_mod::lemma_mod_multiples_basic(qb + k * i, a);
        vstd::arithmetic::mul::lemma_mul_is_commutative(qb + k * i, a);
        if i + 1 < plan.count {
            vstd::arithmetic::mul::lemma_mul_inequality(i + 2, plan.count as int, obj_size as int);
            vstd::arithmetic::mul::lemma_mul_is_distributive_add(obj_size as int, i + 1, 1);
            vstd::arithmetic::mul::lemma_mul_is_commutative(i + 2, obj_size as int);
        }
    }
}

/// Validate a Retype and reserve its run of the region (see
/// [`retype_plan`]).
pub fn plan_retype(nucleus: &Nucleus, caller: CallerTable, untyped_key: RawKey, args: &[u64; 6])
    -> (r: Result<RetypePlan, CapError>)
    requires
        nucleus.wf(),
    ensures
        r == retype_plan(nucleus, caller, untyped_key, args@),
        r matches Ok(p) ==> plan_sound(p),
{
    if args[0] > 255 || args[1] > 255 || args[2] > u32::MAX as u64 || args[4] > u32::MAX as u64 || args[5] > 255 {
        return Err(CapError::InvalidOperation);
    }
    let kind = args[0] as u8;
    let size_bits = args[1] as u8;
    let count = args[2] as u32;
    let (carve, obj_size, align) = carve_for(kind, size_bits)?;
    if count == 0 {
        return Err(CapError::InvalidOperation);
    }
    let ue = lookup_entry(&nucleus.tables, caller, untyped_key, 0)?;
    if ue.object_type().0 != ObjectType::UNTYPED {
        return Err(CapError::TypeMismatch { expected: ObjectType(ObjectType::UNTYPED), found: ue.object_type() });
    }
    if !ue.rights().has(Rights::WRITE) {
        return Err(CapError::InsufficientRights);
    }
    let region = *ue.as_untyped()?;
    if region.is_device {
        return Err(CapError::InvalidObjectType(ObjectType(kind)));
    }
    let dst = match nucleus.tables.get(caller.addr) {
        None => {
            return Err(CapError::InvalidOperation);
        },
        Some(t) => resolve_table_cap(t, RawKey::from_wire(args[3]), caller.guard, 5)?,
    };
    if !dst.rights.has(Rights::INSTALL) {
        return Err(CapError::InsufficientRights);
    }
    if region.size_bits >= 64 {
        return Err(CapError::InvalidSize(region.size_bits as usize));
    }
    proof {
        vstd::arithmetic::power2::lemma_pow2_pos(region.size_bits as nat);
        vstd::bits::lemma_u64_pow2_no_overflow(region.size_bits as nat);
        vstd::bits::lemma_u64_shl_is_mul(1, region.size_bits as u64);
    }
    let size = 1u64 << region.size_bits;
    if region.paddr > u64::MAX - size {
        return Err(CapError::InvalidSize(region.size_bits as usize));
    }
    let misalign = region.paddr % align;
    let watermark = region.state as u64 * 16;
    let aligned_wm = align_up(misalign + watermark, align) - misalign;
    let total = match obj_size.checked_mul(count as u64) {
        None => {
            return Err(CapError::InvalidSize(0));
        },
        Some(t) => t,
    };
    let sum = match aligned_wm.checked_add(total) {
        None => {
            return Err(CapError::InvalidSize(0));
        },
        Some(t) => t,
    };
    let usable = if size < 0xF_FFFF_FFF0 { size } else { 0xF_FFFF_FFF0 };
    if sum > u64::MAX - (align - 1) {
        proof {
            lemma_round_up(sum as int, align as int);
        }
        return Err(CapError::InsufficientMemory);
    }
    let end = align_up(sum, align);
    if end > usable {
        return Err(CapError::InsufficientMemory);
    }
    proof {
        lemma_commit_offset(end as int, align as int, region.state, obj_size as int, count as int);
        if carve == Carve::KeyTable {
            lemma_table_carve_nonempty(size_bits);
        }
    }
    Ok(RetypePlan {
        carve,
        kind: ObjectType(kind),
        size_bits,
        count,
        dst,
        first_slot: args[4] as u32,
        requested: Rights(args[5] as u8),
        region,
        base: region.paddr + aligned_wm,
        obj_size,
        end,
    })
}

/// Where the `i`-th object of a plan is carved.
pub open spec fn carve_addr(plan: RetypePlan, i: int) -> u64 {
    (plan.base + plan.obj_size * i) as u64
}

/// Whether `k` is where one of the plan's first `upto` objects is carved.
pub open spec fn is_carve(plan: RetypePlan, upto: int, k: u64) -> bool {
    exists|i: int| 0 <= i < upto && #[trigger] carve_addr(plan, i) == k
}

/// Whether a `KeyTable` run would be carved where a table already lives.
pub open spec fn carve_taken(tables: Map<u64, KeyTable>, plan: RetypePlan) -> bool {
    plan.carve == Carve::KeyTable && exists|i: int| 0 <= i < plan.count
        && tables.contains_key(#[trigger] carve_addr(plan, i))
}

/// Whether the pool a pool-backed kind allocates from has fewer
/// allocatable slots than the run needs.
pub open spec fn pool_short(n: &Nucleus, plan: RetypePlan) -> bool {
    match plan.carve {
        Carve::PageTable => n.pools.arch.page_tables.free_slots() < plan.count,
        Carve::Notification => n.pools.notifications.free_slots() < plan.count,
        Carve::EventCount => n.pools.event_counts.free_slots() < plan.count,
        _ => false,
    }
}

/// Every check of a Retype, in order: validation and reservation, the
/// destination table and its run of slots, that a table run's addresses
/// are unused, and pool capacity. Success is the plan carried out.
pub open spec fn retype_check(n: &Nucleus, caller: CallerTable, untyped_key: RawKey, args: Seq<u64>)
    -> Result<RetypePlan, CapError> {
    match retype_plan(n, caller, untyped_key, args) {
        Err(e) => Err(e),
        Ok(plan) => {
            let tv = views(n.tables@);
            if !tv.contains_key(plan.dst.address) {
                Err(CapError::InvalidOperation)
            } else {
                match run_check(tv[plan.dst.address], plan.first_slot, plan.count, 0) {
                    Err(e) => Err(e),
                    Ok(()) => if carve_taken(n.tables@, plan) {
                        Err(CapError::InsufficientMemory)
                    } else if pool_short(n, plan) {
                        Err(CapError::PoolExhausted)
                    } else {
                        Ok(plan)
                    },
                }
            }
        },
    }
}

/// The capability a Retype installs for its `i`-th object; `id` is the
/// pool identity a pool-backed object was given.
pub open spec fn created_entry(plan: RetypePlan, i: int, id: ObjectId) -> KeyEntry {
    match plan.carve {
        Carve::KeyTable => KeyEntry {
            obj_type: ObjectType(ObjectType::KEY_TABLE),
            rights: plan.requested,
            badge: 0,
            payload: KeyPayload::KeyTable(KeyTablePayload {
                address: carve_addr(plan, i),
                guard: 0,
                size_bits: plan.size_bits,
            }),
        },
        Carve::Frame => KeyEntry {
            obj_type: ObjectType(ObjectType::FRAME),
            rights: plan.requested,
            badge: 0,
            payload: KeyPayload::Frame(FramePayload {
                paddr: carve_addr(plan, i),
                vaddr: 0,
                as_generation: 0,
                as_index: 0,
                size_bits: plan.size_bits,
                flags: 0,
            }),
        },
        _ => KeyEntry {
            obj_type: plan.kind,
            rights: plan.requested,
            badge: 0,
            payload: KeyPayload::Object(ObjectPayload {
                pool: spec_tag_byte(id.pool),
                index: id.index,
                generation: id.generation,
            }),
        },
    }
}

/// The capabilities of a run, in slot order.
pub open spec fn created_entries(plan: RetypePlan, ids: Seq<ObjectId>) -> Seq<KeyEntry> {
    Seq::new(plan.count as nat, |i: int| created_entry(plan, i, ids[i]))
}

/// The fresh tables of a `KeyTable` run's first `upto` objects.
pub open spec fn carved_tables(plan: RetypePlan, owner: DomainId, upto: int) -> Map<u64, KeyTableView> {
    Map::new(|k: u64| is_carve(plan, upto, k), |k: u64| fresh_view(owner, plan.size_bits))
}

/// The zeroed translation tables of a `PageTable` run's first `upto`
/// objects.
pub open spec fn zeroed_tables(plan: RetypePlan, upto: int) -> Map<u64, Seq<u64>> {
    Map::new(|k: u64| is_carve(plan, upto, k), |k: u64| Seq::new(512, |j: int| 0u64))
}

/// The sanitization requests of a `Frame` run's first `upto` objects.
pub open spec fn zeroings(plan: RetypePlan, upto: int) -> Seq<HwAction> {
    Seq::new(upto as nat, |i: int| HwAction::ZeroFrame { paddr: carve_addr(plan, i), bytes: plan.obj_size })
}

/// An Untyped entry whose watermark is committed at region offset `end`.
pub open spec fn committed(e: KeyEntry, end: u64) -> KeyEntry {
    KeyEntry { payload: KeyPayload::Region(RegionPayload { state: (end / 16) as u32, ..e.region() }), ..e }
}

/// The tables after a successful Retype: the run installed in the
/// destination table, a table run's fresh tables carved, and the
/// watermark committed in the caller's table.
pub open spec fn retyped_tables(tv: Map<u64, KeyTableView>, caller: CallerTable, untyped_key: RawKey,
    plan: RetypePlan, es: Seq<KeyEntry>) -> Map<u64, KeyTableView> {
    let dst = plan.dst.address;
    let t1 = tv.insert(dst, installed_run(tv[dst], plan.first_slot as int, es));
    let t2 = if plan.carve == Carve::KeyTable {
        t1.union_prefer_right(carved_tables(plan, tv[dst].owner, plan.count as int))
    } else {
        t1
    };
    let ui = key_check_in(tv[caller.addr], untyped_key, caller.guard)->Ok_0;
    t2.insert(caller.addr, replaced(t2[caller.addr], ui, committed(tv[caller.addr].entries[ui], plan.end)))
}

/// A pool after a run rolled back: the same objects, with generations
/// only moved forward.
pub open spec fn pool_restored<T: crate::nucleus_object::NucleusObject>(a: &ObjectPool<T>, b: &ObjectPool<T>) -> bool {
    &&& b.objects() == a.objects()
    &&& b.spec_len() == a.spec_len()
    &&& a.evolves_to(b)
}

/// The pools after a successful Retype: the pool of a pool-backed kind
/// holds one fresh object per identity of `ids`; every other pool is
/// unchanged.
pub open spec fn pools_retyped(a: &NucleusPools, b: &NucleusPools, plan: RetypePlan, ids: Seq<ObjectId>) -> bool {
    &&& b.threads == a.threads
    &&& b.arch.address_spaces == a.arch.address_spaces
    &&& b.arch.asid_pools == a.arch.asid_pools
    &&& if plan.carve == Carve::PageTable {
        &&& ids.len() == plan.count
        &&& a.arch.page_tables.evolves_to(&b.arch.page_tables)
        &&& pool_grew(&a.arch.page_tables, &b.arch.page_tables, ids, |j: int, x: AArch64PageTable|
            x == (AArch64PageTable { paddr: carve_addr(plan, j), level: 0, parent: PtParent::Uninstalled }))
    } else {
        b.arch.page_tables == a.arch.page_tables
    }
    &&& if plan.carve == Carve::Notification {
        &&& ids.len() == plan.count
        &&& a.notifications.evolves_to(&b.notifications)
        &&& pool_grew(&a.notifications, &b.notifications, ids, |j: int, x: Notification|
            x.wf() && x.bits() == 0 && x.queued() == Seq::<ObjectId>::empty())
    } else {
        b.notifications == a.notifications
    }
    &&& if plan.carve == Carve::EventCount {
        &&& ids.len() == plan.count
        &&& a.event_counts.evolves_to(&b.event_counts)
        &&& pool_grew(&a.event_counts, &b.event_counts, ids, |j: int, x: EventCount|
            x.wf() && x.spec_value() == 0 && x.queued() == Seq::<(ObjectId, u64)>::empty())
    } else {
        b.event_counts == a.event_counts
    }
}

/// The identities a sound plan's pool-backed objects take: the next
/// `count` next-fit allocations of its kind's pool; none for other kinds.
pub open spec fn run_of(pools: &NucleusPools, plan: RetypePlan) -> Seq<ObjectId> {
    match plan.carve {
        Carve::PageTable => pools.arch.page_tables.next_run(plan.count as nat),
        Carve::Notification => pools.notifications.next_run(plan.count as nat),
        Carve::EventCount => pools.event_counts.next_run(plan.count as nat),
        _ => Seq::empty(),
    }
}

/// Everything a successful Retype leaves, given the identities its
/// pool-backed objects received: the tables, pools, carved translation
/// tables and sanitization requests, with the rest of the nucleus
/// unchanged.
pub open spec fn retyped(a: &Nucleus, b: &Nucleus, caller: CallerTable, untyped_key: RawKey, plan: RetypePlan,
    ids: Seq<ObjectId>) -> bool {
    &&& views(b.tables@) == retyped_tables(views(a.tables@), caller, untyped_key, plan, created_entries(plan, ids))
    &&& pools_retyped(&a.pools, &b.pools, plan, ids)
    &&& b.phys.contents() == if plan.carve == Carve::PageTable {
        a.phys.contents().union_prefer_right(zeroed_tables(plan, plan.count as int))
    } else {
        a.phys.contents()
    }
    &&& b.hw@ == if plan.carve == Carve::Frame { a.hw@ + zeroings(plan, plan.count as int) } else { a.hw@ }
    &&& b.pending == a.pending
    &&& b.scheduler == a.scheduler
    &&& b.dcb_pages == a.dcb_pages
    &&& b.current_thread == a.current_thread
}

/// A Retype refused for want of pool slots: only the briefly used pool
/// slots' generations have moved.
pub open spec fn exhausted_unchanged(a: &Nucleus, b: &Nucleus) -> bool {
    &&& b.tables == a.tables
    &&& b.phys == a.phys
    &&& b.hw == a.hw
    &&& b.pending == a.pending
    &&& b.scheduler == a.scheduler
    &&& b.dcb_pages == a.dcb_pages
    &&& b.current_thread == a.current_thread
    &&& b.pools.threads == a.pools.threads
    &&& b.pools.arch.address_spaces == a.pools.arch.address_spaces
    &&& b.pools.arch.asid_pools == a.pools.arch.asid_pools
    &&& pool_restored(&a.pools.arch.page_tables, &b.pools.arch.page_tables)
    &&& pool_restored(&a.pools.notifications, &b.pools.notifications)
    &&& pool_restored(&a.pools.event_counts, &b.pools.event_counts)
}

/// Where the `i`-th object of a sound plan is carved.
fn carve_addr_of(plan: &RetypePlan, i: u32) -> (r: u64)
    requires
        plan_sound(*plan),
        i < plan.count,
    ensures
        r == carve_addr(*plan, i as int),
        r as int == plan.base + plan.obj_size * i,
{
    proof {
        vstd::arithmetic::mul::lemma_mul_inequality(i as int, plan.count as int, plan.obj_size as int);
        vstd::arithmetic::mul::lemma_mul_is_commutative(i as int, plan.obj_size as int);
        vstd::arithmetic::mul::lemma_mul_is_commutative(plan.count as int, plan.obj_size as int);
    }
    plan.base + plan.obj_size * i as u64
}

/// Whether any address of a table run already holds a table.
fn check_carves(tables: &AddrStore<KeyTable>, plan: &RetypePlan) -> (r: Result<(), CapError>)
    requires
        tables.wf(),
        plan_sound(*plan),
        plan.carve == Carve::KeyTable,
    ensures
        r is Err <==> carve_taken(tables@, *plan),
        r is Err ==> r == Err::<(), CapError>(CapError::InsufficientMemory),
{
    let mut i: u32 = 0;
    while i < plan.count
        invariant
            tables.wf(),
            plan_sound(*plan),
            plan.carve == Carve::KeyTable,
            i <= plan.count,
            forall|j: int| 0 <= j < i ==> !tables@.contains_key(#[trigger] carve_addr(*plan, j)),
        decreases plan.count - i,
    {
        let addr = carve_addr_of(plan, i);
        if tables.contains(addr) {
            return Err(CapError::InsufficientMemory);
        }
        i = i + 1;
    }
    Ok(())
}

/// The capabilities of a run (see [`created_entries`]).
fn make_entries(plan: &RetypePlan, ids: &Vec<ObjectId>) -> (r: Vec<KeyEntry>)
    requires
        plan_sound(*plan),
        plan.carve == Carve::PageTable || plan.carve == Carve::Notification || plan.carve == Carve::EventCount
            ==> ids.len() == plan.count,
    ensures
        r@ == created_entries(*plan, ids@),
        forall|j: int| 0 <= j < r.len() ==> (#[trigger] r@[j]).wf() && r@[j].spec_is_valid(),
{
    let mut r: Vec<KeyEntry> = Vec::new();
    let mut i: u32 = 0;
    while i < plan.count
        invariant
            plan_sound(*plan),
            plan.carve == Carve::PageTable || plan.carve == Carve::Notification || plan.carve == Carve::EventCount
                ==> ids.len() == plan.count,
            i <= plan.count,
            r.len() == i,
            forall|j: int| 0 <= j < i ==> #[trigger] r@[j] == created_entry(*plan, j, ids@[j]),
            forall|j: int| 0 <= j < r.len() ==> (#[trigger] r@[j]).wf() && r@[j].spec_is_valid(),
        decreases plan.count - i,
    {
        let e = match plan.carve {
            Carve::KeyTable => KeyEntry::new_keytable(carve_addr_of(plan, i), 0, plan.size_bits, plan.requested, 0),
            Carve::Frame => KeyEntry::new_frame(carve_addr_of(plan, i), plan.size_bits, false, plan.requested),
            _ => KeyEntry::from_id(plan.kind, ids[i as usize], plan.requested, 0),
        };
        r.push(e);
        i = i + 1;
    }
    proof {
        assert(r@ =~= created_entries(*plan, ids@));
    }
    r
}

/// Carve the fresh tables of a table run, owned by `owner`.
fn carve_tables(tables: &mut AddrStore<KeyTable>, plan: &RetypePlan, owner: DomainId)
    requires
        tables_wf(old(tables)),
        plan_sound(*plan),
        plan.carve == Carve::KeyTable,
    ensures
        tables_wf(final(tables)),
        views(final(tables)@) == views(old(tables)@).union_prefer_right(carved_tables(*plan, owner, plan.count as int)),
        final(tables)@.dom() == old(tables)@.dom().union(carved_tables(*plan, owner, plan.count as int).dom()),
{
    let mut i: u32 = 0;
    while i < plan.count
        invariant
            tables_wf(tables),
            plan_sound(*plan),
            plan.carve == Carve::KeyTable,
            i <= plan.count,
            views(tables@) == views(old(tables)@).union_prefer_right(carved_tables(*plan, owner, i as int)),
            tables@.dom() == old(tables)@.dom().union(carved_tables(*plan, owner, i as int).dom()),
        decreases plan.count - i,
    {
        let addr = carve_addr_of(plan, i);
        let t = KeyTable::initialize(owner, plan.size_bits);
        let ghost prev = tables@;
        tables.insert(addr, t);
        proof {
            let c1 = carved_tables(*plan, owner, i + 1);
            let c0 = carved_tables(*plan, owner, i as int);
            assert forall|k: u64| #[trigger] c1.contains_key(k) == (c0.contains_key(k) || k == addr) by {
                if c1.contains_key(k) && k != addr {
                    let j = choose|j: int| 0 <= j < i + 1 && #[trigger] carve_addr(*plan, j) == k;
                    assert(j != i);
                }
                if k == addr {
                    assert(carve_addr(*plan, i as int) == k);
                }
                if c0.contains_key(k) {
                    let j = choose|j: int| 0 <= j < i && #[trigger] carve_addr(*plan, j) == k;
                    assert(0 <= j < i + 1);
                }
            }
            assert(views(tables@) =~= views(prev).insert(addr, fresh_view(owner, plan.size_bits)));
            assert(views(tables@) =~= views(old(tables)@).union_prefer_right(c1));
            assert(tables@.dom() =~= old(tables)@.dom().union(c1.dom()));
            assert forall|a: u64| #[trigger] tables@.contains_key(a) implies tables@[a].wf() by {
                if a != addr {
                    assert(prev.contains_key(a));
                }
            }
        }
        i = i + 1;
    }
}

/// Carve the zeroed translation tables of a page-table run.
fn zero_tables(phys: &mut PhysTables, plan: &RetypePlan)
    requires
        old(phys).wf(),
        plan_sound(*plan),
    ensures
        final(phys).wf(),
        final(phys).contents() == old(phys).contents().union_prefer_right(zeroed_tables(*plan, plan.count as int)),
{
    let mut i: u32 = 0;
    while i < plan.count
        invariant
            phys.wf(),
            plan_sound(*plan),
            i <= plan.count,
            phys.contents() == old(phys).contents().union_prefer_right(zeroed_tables(*plan, i as int)),
        decreases plan.count - i,
    {
        let addr = carve_addr_of(plan, i);
        phys.carve(addr);
        proof {
            let z1 = zeroed_tables(*plan, i + 1);
            let z0 = zeroed_tables(*plan, i as int);
            assert forall|k: u64| #[trigger] z1.contains_key(k) == (z0.contains_key(k) || k == addr) by {
                if z1.contains_key(k) && k != addr {
                    let j = choose|j: int| 0 <= j < i + 1 && #[trigger] carve_addr(*plan, j) == k;
                    assert(j != i);
                }
                if k == addr {
                    assert(carve_addr(*plan, i as int) == k);
                }
                if z0.contains_key(k) {
                    let j = choose|j: int| 0 <= j < i && #[trigger] carve_addr(*plan, j) == k;
                    assert(0 <= j < i + 1);
                }
            }
            assert(phys.contents() =~= old(phys).contents().union_prefer_right(z1));
        }
        i = i + 1;
    }
}

/// Request the sanitization of every frame of a frame run.
fn zero_frames(hw: &mut Vec<HwAction>, plan: &RetypePlan)
    requires
        plan_sound(*plan),
    ensures
        final(hw)@ == old(hw)@ + zeroings(*plan, plan.count as int),
{
    let mut i: u32 = 0;
    while i < plan.count
        invariant
            plan_sound(*plan),
            i <= plan.count,
            hw@ == old(hw)@ + zeroings(*plan, i as int),
        decreases plan.count - i,
    {
        let addr = carve_addr_of(plan, i);
        hw.push(HwAction::ZeroFrame { paddr: addr, bytes: plan.obj_size });
        proof {
            assert(hw@ =~= old(hw)@ + zeroings(*plan, i + 1));
        }
        i = i + 1;
    }
}

/// The fresh page-table records of a page-table run, one per carve.
fn table_inits(plan: &RetypePlan) -> (r: Vec<AArch64PageTable>)
    requires
        plan_sound(*plan),
    ensures
        r.len() == plan.count,
        forall|j: int| 0 <= j < r.len() ==> #[trigger] r@[j]
            == (AArch64PageTable { paddr: carve_addr(*plan, j), level: 0, parent: PtParent::Uninstalled }),
{
    let mut r: Vec<AArch64PageTable> = Vec::new();
    let mut i: u32 = 0;
    while i < plan.count
        invariant
            plan_sound(*plan),
            i <= plan.count,
            r.len() == i,
            forall|j: int| 0 <= j < r.len() ==> #[trigger] r@[j]
                == (AArch64PageTable { paddr: carve_addr(*plan, j), level: 0, parent: PtParent::Uninstalled }),
        decreases plan.count - i,
    {
        r.push(AArch64PageTable::new(carve_addr_of(plan, i)));
        i = i + 1;
    }
    r
}

/// `count` fresh notifications.
fn notification_inits(count: u32) -> (r: Vec<Notification>)
    ensures
        r.len() == count,
        forall|j: int| 0 <= j < r.len() ==> (#[trigger] r@[j]).wf() && r@[j].bits() == 0
            && r@[j].queued() == Seq::<ObjectId>::empty(),
{
    let mut r: Vec<Notification> = Vec::new();
    while r.len() < count as usize
        invariant
            r.len() <= count,
            forall|j: int| 0 <= j < r.len() ==> (#[trigger] r@[j]).wf() && r@[j].bits() == 0
                && r@[j].queued() == Seq::<ObjectId>::empty(),
        decreases count - r.len(),
    {
        r.push(Notification::new());
    }
    r
}

/// `count` fresh event counts.
fn event_count_inits(count: u32) -> (r: Vec<EventCount>)
    ensures
        r.len() == count,
        forall|j: int| 0 <= j < r.len() ==> (#[trigger] r@[j]).wf() && r@[j].spec_value() == 0
            && r@[j].queued() == Seq::<(ObjectId, u64)>::empty(),
{
    let mut r: Vec<EventCount> = Vec::new();
    while r.len() < count as usize
        invariant
            r.len() <= count,
            forall|j: int| 0 <= j < r.len() ==> (#[trigger] r@[j]).wf() && r@[j].spec_value() == 0
                && r@[j].queued() == Seq::<(ObjectId, u64)>::empty(),
        decreases count - r.len(),
    {
        r.push(EventCount::new());
    }
    r
}

/// What a Retype returns and leaves: on a refusal the error, with nothing
/// changed but, when the pool ran short, the generations of the briefly
/// used pool slots; on success the first installed key, and what
/// [`retyped`] describes.
pub open spec fn retype_done(a: &Nucleus, b: &Nucleus, caller: CallerTable, untyped_key: RawKey, args: Seq<u64>,
    r: Result<(u64, u64), CapError>) -> bool {
    match retype_check(a, caller, untyped_key, args) {
        Err(e) => r == Err::<(u64, u64), CapError>(e)
            && (e == CapError::PoolExhausted ==> exhausted_unchanged(a, b))
            && (e != CapError::PoolExhausted ==> *b == *a),
        Ok(plan) => {
            &&& r == Ok::<(u64, u64), CapError>((installed_key(views(a.tables@)[plan.dst.address],
                plan.first_slot as int, plan.dst.guard).spec_to_wire(), 0))
            &&& retyped(a, b, caller, untyped_key, plan, run_of(&a.pools, plan))
        },
    }
}

/// Every capability a successful Retype installs carries exactly the
/// requested rights (`x7`): the run fills `count` consecutive slots of the
/// destination table from the first destination slot (`x6`), whatever the
/// kind, and each of those slots then holds an entry with those rights.
pub proof fn lemma_retype_grants_requested_rights(a: &Nucleus, b: &Nucleus, caller: CallerTable, untyped_key: RawKey,
    args: Seq<u64>, r: Result<(u64, u64), CapError>)
    requires
        a.wf(),
        retype_done(a, b, caller, untyped_key, args, r),
        r is Ok,
    ensures
        ({
            let dst = retype_check(a, caller, untyped_key, args)->Ok_0.dst.address;
            forall|j: int| 0 <= j < args[2] ==> (#[trigger] views(b.tables@)[dst].entries[args[4] + j]).rights
                == Rights(args[5] as u8)
        }),
{
    let plan = retype_check(a, caller, untyped_key, args)->Ok_0;
    let tv = views(a.tables@);
    let dst = plan.dst.address;
    let es = created_entries(plan, run_of(&a.pools, plan));
    let ui = key_check_in(tv[caller.addr], untyped_key, caller.guard)->Ok_0;
    assert(tv.contains_key(caller.addr));
    assert(a.tables@[dst].wf());
    assert(view_sized(tv[dst]));
    assert forall|j: int| 0 <= j < args[2] implies (#[trigger] views(b.tables@)[dst].entries[args[4] + j]).rights
        == Rights(args[5] as u8) by {
        let idx = args[4] + j;
        lemma_run_check_ok(tv[dst], plan.first_slot, plan.count, 0, j);
        let t1 = tv.insert(dst, installed_run(tv[dst], plan.first_slot as int, es));
        assert(t1[dst].entries[idx] == es[j]);
        if plan.carve == Carve::KeyTable {
            assert(!carved_tables(plan, tv[dst].owner, plan.count as int).contains_key(dst)) by {
                if is_carve(plan, plan.count as int, dst) {
                    let k = choose|k: int| 0 <= k < plan.count && #[trigger] carve_addr(plan, k) == dst;
                    assert(a.tables@.contains_key(carve_addr(plan, k)));
                }
            }
        }
        if caller.addr == dst {
            assert(ui != idx);
        }
    }
}

/// `Untyped.Retype` `0`: carve `count` objects of one kind from the
/// region's unused range and install their capabilities into consecutive
/// destination slots. Every check comes first (see [`retype_check`]); see
/// [`retype_done`] for the outcome.
/// A `KeyTable` is carved with `size_bits` as its capacity exponent (see
/// [`carve_of`]).
pub fn retype(nucleus: &mut Nucleus, caller: CallerTable, untyped_key: RawKey, args: &[u64; 6])
    -> (r: Result<(u64, u64), CapError>)
    requires
        old(nucleus).wf(),
    ensures
        final(nucleus).wf(),
        retype_done(old(nucleus), final(nucleus), caller, untyped_key, args@, r),
{
    let plan = plan_retype(nucleus, caller, untyped_key, args)?;
    let ghost a = *nucleus;
    let ghost tv = views(nucleus.tables@);
    let ghost ui = key_check_in(tv[caller.addr], untyped_key, caller.guard)->Ok_0;
    let owner = match nucleus.tables.get(plan.dst.address) {
        None => {
            return Err(CapError::InvalidOperation);
        },
        Some(t) => {
            t.check_run(plan.first_slot, plan.count)?;
            t.owner()
        },
    };
    if plan.carve == Carve::KeyTable {
        check_carves(&nucleus.tables, &plan)?;
    }
    let ids: Vec<ObjectId> = if plan.carve == Carve::PageTable {
        let inits = table_inits(&plan);
        let ghost iv = inits@;
        let ids = nucleus.pools.arch.page_tables.allocate_run(inits)?;
        proof {
            lemma_pool_grew_weaken(&a.pools.arch.page_tables, &nucleus.pools.arch.page_tables, ids@,
                |j: int, x: AArch64PageTable| x == iv[j],
                |j: int, x: AArch64PageTable|
                    x == (AArch64PageTable { paddr: carve_addr(plan, j), level: 0, parent: PtParent::Uninstalled }));
        }
        ids
    } else if plan.carve == Carve::Notification {
        let inits = notification_inits(plan.count);
        let ghost iv = inits@;
        let ids = nucleus.pools.notifications.allocate_run(inits)?;
        proof {
            lemma_pool_grew_weaken(&a.pools.notifications, &nucleus.pools.notifications, ids@,
                |j: int, x: Notification| x == iv[j],
                |j: int, x: Notification| x.wf() && x.bits() == 0 && x.queued() == Seq::<ObjectId>::empty());
        }
        ids
    } else if plan.carve == Carve::EventCount {
        let inits = event_count_inits(plan.count);
        let ghost iv = inits@;
        let ids = nucleus.pools.event_counts.allocate_run(inits)?;
        proof {
            lemma_pool_grew_weaken(&a.pools.event_counts, &nucleus.pools.event_counts, ids@,
                |j: int, x: EventCount| x == iv[j],
                |j: int, x: EventCount| x.wf() && x.spec_value() == 0
                    && x.queued() == Seq::<(ObjectId, u64)>::empty());
        }
        ids
    } else {
        Vec::new()
    };
    let ghost pooled = *nucleus;
    let entries = make_entries(&plan, &ids);
    let ghost es = entries@;
    let first_key = match nucleus.tables.get_mut(plan.dst.address) {
        None => {
            return Err(CapError::InvalidOperation);
        },
        Some(t) => t.insert_run(plan.first_slot, &entries, plan.dst.guard),
    };
    let ghost t1 = tv.insert(plan.dst.address, installed_run(tv[plan.dst.address], plan.first_slot as int, es));
    proof {
        assert(views(nucleus.tables@) =~= t1);
        assert forall|k: u64| #[trigger] nucleus.tables@.contains_key(k) implies nucleus.tables@[k].wf() by {
            if k != plan.dst.address {
                assert(pooled.tables@.contains_key(k));
            }
        }
    }
    if plan.carve == Carve::KeyTable {
        carve_tables(&mut nucleus.tables, &plan, owner);
    } else if plan.carve == Carve::PageTable {
        zero_tables(&mut nucleus.phys, &plan);
    } else if plan.carve == Carve::Frame {
        zero_frames(&mut nucleus.hw, &plan);
    }
    let ghost t2 = views(nucleus.tables@);
    let ghost carved = *nucleus;
    proof {
        // The caller's table is no carve: its key still names the Untyped.
        if plan.carve == Carve::KeyTable {
            let c = carved_tables(plan, tv[plan.dst.address].owner, plan.count as int);
            assert(!c.contains_key(caller.addr)) by {
                if c.contains_key(caller.addr) {
                    let j = choose|j: int| 0 <= j < plan.count && #[trigger] carve_addr(plan, j) == caller.addr;
                    assert(a.tables@.contains_key(carve_addr(plan, j)));
                }
            }
            assert(t2[caller.addr] == t1[caller.addr]);
        }
        assert(t2[caller.addr] == t1[caller.addr]);
        if plan.dst.address == caller.addr {
            lemma_run_keeps_resolved(tv[plan.dst.address], plan.first_slot, es, untyped_key, caller.guard, ui);
        }
        assert(key_check_in(t2[caller.addr], untyped_key, caller.guard) == Ok::<int, CapError>(ui));
        assert(t2[caller.addr].entries[ui] == tv[caller.addr].entries[ui]);
    }
    match nucleus.tables.get_mut(caller.addr) {
        None => {
            return Err(CapError::InvalidOperation);
        },
        Some(t) => {
            t.advance_untyped_watermark(untyped_key, caller.guard, plan.end)?;
        },
    }
    proof {
        assert(views(nucleus.tables@) =~= retyped_tables(tv, caller, untyped_key, plan, created_entries(plan, ids@)));
        assert forall|k: u64| #[trigger] nucleus.tables@.contains_key(k) implies nucleus.tables@[k].wf() by {
            if k != caller.addr {
                assert(carved.tables@.contains_key(k));
            }
        }
        assert(ids@ == run_of(&a.pools, plan));
        assert(retyped(&a, nucleus, caller, untyped_key, plan, ids@));
    }
    Ok((first_key.to_wire(), 0))
}

/// The operations of an Untyped capability.
#[derive(Clone, Copy, Debug, PartialEq, Eq, Structural)]
pub enum UntypedOp {
    /// `0`: create objects from the unused range.
    Retype,
}

impl UntypedOp {
    /// Decode an operation number.
    pub fn from_op(op: u64) -> (r: Result<UntypedOp, CapError>)
        ensures
            op == 0 ==> r == Ok::<UntypedOp, CapError>(UntypedOp::Retype),
            op != 0 ==> r == Err::<UntypedOp, CapError>(CapError::InvalidOperation),
    {
        if op == 0 {
            Ok(UntypedOp::Retype)
        } else {
            Err(CapError::InvalidOperation)
        }
    }
}

/// What an Untyped invocation returns and does: `Retype` `0` (see
/// [`retype_done`]); other operations are refused.
pub open spec fn untyped_done(a: &Nucleus, b: &Nucleus, caller: CallerTable, untyped_key: RawKey, op: u64,
    args: Seq<u64>, r: Result<(u64, u64), CapError>) -> bool {
    if op == 0 {
        retype_done(a, b, caller, untyped_key, args, r)
    } else {
        r == Err::<(u64, u64), CapError>(CapError::InvalidOperation) && *b == *a
    }
}

/// Handle an Untyped invocation (see [`untyped_done`]).
pub fn untyped_invoke(nucleus: &mut Nucleus, caller: CallerTable, untyped_key: RawKey, op: u64, args: &[u64; 6])
    -> (r: Result<(u64, u64), CapError>)
    requires
        old(nucleus).wf(),
    ensures
        final(nucleus).wf(),
        untyped_done(old(nucleus), final(nucleus), caller, untyped_key, op, args@, r),
{
    match UntypedOp::from_op(op)? {
        UntypedOp::Retype => retype(nucleus, caller, untyped_key, args),
    }
}

} // verus!
