//! `KeyTable` management invocations: `CopyDerive`, `Move` and `Delete`.
//!
//! The invoked table key and the destination-table key are resolved through
//! the caller's own table. Authority is per table: `DERIVE` to copy out of
//! the invoked table, `REMOVE` as well to move out of it, `INSTALL` on the
//! destination table, `REMOVE` to delete. Only `KeyTable` and `Frame`
//! capabilities may be derived or moved; a derivation never amplifies
//! rights and keeps the badge; a move keeps the capability's state and, on
//! a failed installation, puts it back into its source slot under a fresh
//! incarnation.
//!
//! Wire schemas (`x2..x7` are `args[0..6]`):
//! - `CopyDerive` `0`: source selector, destination-table key, vacant
//!   destination slot, requested rights; the rest zero. Returns the
//!   destination-local key.
//! - `Move` `1`: source selector, destination-table key, vacant destination
//!   slot; the rest zero. Returns the destination-local key.
//! - `Delete` `2`: target selector; the rest zero. Returns zeros.

use vstd::prelude::*;
use crate::error::{spec_with_key_operand, CapError, InvalidKeyReason};
use crate::key::{wire_key, KeySlot, RawKey};
use crate::key_entry::{spec_derive, KeyEntry};
use crate::key_table::{
    index_mask, installed, installed_key, insert_check_in, key_check_in, removed, view_sized, CallerTable,
    KeyTable, KeyTableView,
};
use crate::object_type::ObjectType;
use crate::rights::{bits_contain, Rights};
use crate::store::AddrStore;

verus! {

/// `KeyTable` operations.
#[derive(Clone, Copy, Debug, PartialEq, Eq, Structural)]
pub enum KeyTableOp {
    CopyDerive,
    Move,
    Delete,
    Revoke,
}

impl KeyTableOp {
    /// Decode an operation number; unknown numbers are invalid operations.
    pub fn from_op(op: u64) -> (r: Result<KeyTableOp, CapError>)
        ensures
            op == 0 ==> r == Ok::<KeyTableOp, CapError>(KeyTableOp::CopyDerive),
            op == 1 ==> r == Ok::<KeyTableOp, CapError>(KeyTableOp::Move),
            op == 2 ==> r == Ok::<KeyTableOp, CapError>(KeyTableOp::Delete),
            op == 3 ==> r == Ok::<KeyTableOp, CapError>(KeyTableOp::Revoke),
            op > 3 ==> r == Err::<KeyTableOp, CapError>(CapError::InvalidOperation),
    {
        if op == 0 {
            Ok(KeyTableOp::CopyDerive)
        } else if op == 1 {
            Ok(KeyTableOp::Move)
        } else if op == 2 {
            Ok(KeyTableOp::Delete)
        } else if op == 3 {
            Ok(KeyTableOp::Revoke)
        } else {
            Err(CapError::InvalidOperation)
        }
    }
}

/// The abstract states of the carved tables.
pub open spec fn views(s: Map<u64, KeyTable>) -> Map<u64, KeyTableView> {
    s.map_values(|t: KeyTable| t@)
}

/// A table store holding only well-formed tables.
pub open spec fn tables_wf(s: &AddrStore<KeyTable>) -> bool {
    &&& s.wf()
    &&& forall|a: u64| #[trigger] s@.contains_key(a) ==> s@[a].wf()
}

/// A resolved table capability: the carved table's address, the guard and
/// capacity exponent its keys use, and the rights it grants.
#[derive(Clone, Copy, Debug, PartialEq, Eq, Structural)]
pub struct TableCap {
    pub address: u64,
    pub guard: u32,
    pub size_bits: u8,
    pub rights: Rights,
}

/// The table capability `key` names in table `v` (keys checked with
/// `guard`; key errors report `operand`).
pub open spec fn table_cap_in(v: KeyTableView, key: RawKey, guard: u32, operand: u8) -> Result<TableCap, CapError> {
    match key_check_in(v, key, guard) {
        Err(e) => Err(spec_with_key_operand(e, operand)),
        Ok(i) => {
            let e = v.entries[i];
            if e.obj_type.0 != ObjectType::KEY_TABLE {
                Err(CapError::TypeMismatch { expected: ObjectType(ObjectType::KEY_TABLE), found: e.obj_type })
            } else {
                Ok(TableCap {
                    address: e.table().address,
                    guard: e.table().guard,
                    size_bits: e.table().size_bits,
                    rights: e.rights,
                })
            }
        },
    }
}

/// Resolve a `KeyTable` capability through the caller's own table (see
/// [`table_cap_in`]).
pub fn resolve_table_cap(caller_table: &KeyTable, key: RawKey, caller_guard: u32, operand: u8)
    -> (r: Result<TableCap, CapError>)
    requires
        caller_table.wf(),
    ensures
        r == table_cap_in(caller_table@, key, caller_guard, operand),
        r matches Ok(c) ==> c.size_bits <= KeyTable::MAX_SIZE_BITS,
{
    let entry = match caller_table.lookup(key, caller_guard) {
        Ok(e) => e,
        Err(e) => {
            return Err(e.with_key_operand(operand));
        },
    };
    if entry.object_type().0 != ObjectType::KEY_TABLE {
        return Err(CapError::TypeMismatch { expected: ObjectType(ObjectType::KEY_TABLE), found: entry.object_type() });
    }
    let address = match entry.keytable_address() {
        Ok(a) => a,
        Err(e) => {
            return Err(e.with_key_operand(operand));
        },
    };
    let (guard, size_bits) = match entry.keytable_guard_and_size() {
        Ok(g) => g,
        Err(e) => {
            return Err(e.with_key_operand(operand));
        },
    };
    Ok(TableCap { address, guard, size_bits, rights: entry.rights() })
}

/// The bare slot index a selector names under a table capability's layout:
/// the low `size_bits` bits of its table-relative address.
pub open spec fn spec_bare_index(cap: TableCap, key: RawKey) -> KeySlot {
    KeySlot(key.spec_slot().0 & index_mask(cap.size_bits as u32))
}

/// See [`spec_bare_index`].
pub fn bare_index(cap: &TableCap, key: RawKey) -> (r: KeySlot)
    requires
        cap.size_bits <= KeyTable::MAX_SIZE_BITS,
    ensures
        r == spec_bare_index(*cap, key),
{
    let width = cap.size_bits as u32;
    assert(1u32 << width >= 1) by (bit_vector)
        requires
            width <= 20;
    KeySlot(key.slot().0 & ((1u32 << width) - 1))
}

/// The kinds that may be derived or moved between tables.
pub open spec fn allowlisted(t: ObjectType) -> bool {
    t.0 == ObjectType::KEY_TABLE || t.0 == ObjectType::FRAME
}

/// Only `KeyTable` and `Frame` capabilities may be derived or moved; other
/// kinds are rejected as invalid object types.
pub fn check_allowlisted(obj_type: ObjectType, operand: u8) -> (r: Result<(), CapError>)
    ensures
        r == if allowlisted(obj_type) {
            Ok::<(), CapError>(())
        } else {
            Err::<(), CapError>(CapError::InvalidObjectType(obj_type))
        },
{
    if obj_type.0 == ObjectType::KEY_TABLE || obj_type.0 == ObjectType::FRAME {
        Ok(())
    } else {
        Err(CapError::InvalidObjectType(obj_type))
    }
}

/// Look up the source selector and check its kind is allowlisted.
pub open spec fn source_check(v: KeyTableView, key: RawKey, guard: u32, operand: u8) -> Result<int, CapError> {
    match key_check_in(v, key, guard) {
        Err(e) => Err(spec_with_key_operand(e, operand)),
        Ok(i) => if allowlisted(v.entries[i].obj_type) {
            Ok(i)
        } else {
            Err(CapError::InvalidObjectType(v.entries[i].obj_type))
        },
    }
}

/// See [`source_check`].
pub fn check_source_allowlisted(table: &KeyTable, src_sel: RawKey, guard: u32, operand: u8) -> (r: Result<(), CapError>)
    requires
        table.wf(),
    ensures
        match source_check(table@, src_sel, guard, operand) {
            Ok(_) => r == Ok::<(), CapError>(()),
            Err(e) => r == Err::<(), CapError>(e),
        },
{
    let entry = match table.lookup(src_sel, guard) {
        Ok(e) => e,
        Err(e) => {
            return Err(e.with_key_operand(operand));
        },
    };
    check_allowlisted(entry.object_type(), operand)
}

/// Both table capabilities of a two-table operation, resolved through the
/// caller's own table: the invoked one (operand 0) and the destination one
/// named by `dst_key` (operand 3).
pub open spec fn table_caps(tv: Map<u64, KeyTableView>, caller: CallerTable, table_key: RawKey, dst_key: RawKey)
    -> Result<(TableCap, TableCap), CapError> {
    if !tv.contains_key(caller.addr) {
        Err(CapError::InvalidOperation)
    } else {
        match table_cap_in(tv[caller.addr], table_key, caller.guard, 0) {
            Err(e) => Err(e),
            Ok(src) => match table_cap_in(tv[caller.addr], dst_key, caller.guard, 3) {
                Err(e) => Err(e),
                Ok(dst) => Ok((src, dst)),
            },
        }
    }
}

/// The destination slot operand: a 32-bit slot index.
pub open spec fn slot_operand(args: Seq<u64>) -> Result<KeySlot, CapError> {
    if args[2] > u32::MAX {
        Err(CapError::InvalidKey { key: wire_key(args[1]), reason: InvalidKeyReason::SlotOutOfRange, operand: 4 })
    } else {
        Ok(KeySlot(args[2] as u32))
    }
}

/// What `CopyDerive` does: the destination table, slot, derived entry and
/// destination guard of the installation, or the error.
pub open spec fn copy_derive_plan(tv: Map<u64, KeyTableView>, caller: CallerTable, table_key: RawKey, args: Seq<u64>)
    -> Result<(u64, int, KeyEntry, u32), CapError> {
    match slot_operand(args) {
        Err(e) => Err(e),
        Ok(dst_slot) => if args[3] > 255 || args[4] != 0 || args[5] != 0 {
            Err(CapError::InvalidOperation)
        } else {
            let requested = Rights(args[3] as u8);
            match table_caps(tv, caller, table_key, wire_key(args[1])) {
                Err(e) => Err(e),
                Ok((src, dst)) => if !bits_contain(src.rights.0, Rights::DERIVE)
                    || !bits_contain(dst.rights.0, Rights::INSTALL) {
                    Err(CapError::InsufficientRights)
                } else if !tv.contains_key(src.address) || !tv.contains_key(dst.address) {
                    Err(CapError::InvalidOperation)
                } else {
                    match source_check(tv[src.address], wire_key(args[0]), src.guard, 2) {
                        Err(e) => Err(e),
                        Ok(i) => {
                            let entry = tv[src.address].entries[i];
                            if !bits_contain(entry.rights.0, requested.0) {
                                Err(CapError::InsufficientRights)
                            } else {
                                let derived = spec_derive(entry, requested);
                                match insert_check_in(tv[dst.address], dst_slot, derived) {
                                    Err(e) => Err(spec_with_key_operand(e, 4)),
                                    Ok(j) => Ok((dst.address, j, derived, dst.guard)),
                                }
                            }
                        },
                    }
                },
            }
        },
    }
}

/// `CopyDerive` `0`: derive an attenuated copy of a capability into a
/// vacant destination slot (see [`copy_derive_plan`]).
pub fn copy_derive(tables: &mut AddrStore<KeyTable>, caller: CallerTable, table_key: RawKey, args: &[u64; 6])
    -> (r: Result<(u64, u64), CapError>)
    requires
        tables_wf(old(tables)),
    ensures
        tables_wf(final(tables)),
        match copy_derive_plan(views(old(tables)@), caller, table_key, args@) {
            Err(e) => r == Err::<(u64, u64), CapError>(e) && views(final(tables)@) == views(old(tables)@),
            Ok((dst, i, entry, guard)) => {
                let v = views(old(tables)@)[dst];
                &&& r == Ok::<(u64, u64), CapError>((installed_key(v, i, guard).spec_to_wire(), 0))
                &&& views(final(tables)@) == views(old(tables)@).insert(dst, installed(v, i, entry))
            },
        },
{
    let src_sel = RawKey::from_wire(args[0]);
    let dst_table_key = RawKey::from_wire(args[1]);
    if args[2] > u32::MAX as u64 {
        return Err(CapError::InvalidKey { key: dst_table_key, reason: InvalidKeyReason::SlotOutOfRange, operand: 4 });
    }
    let dst_slot = KeySlot(args[2] as u32);
    if args[3] > 255 || args[4] != 0 || args[5] != 0 {
        return Err(CapError::InvalidOperation);
    }
    let requested = Rights(args[3] as u8);
    let (src_cap, dst_cap) = match tables.get(caller.addr) {
        None => {
            return Err(CapError::InvalidOperation);
        },
        Some(caller_table) => {
            let src = resolve_table_cap(caller_table, table_key, caller.guard, 0)?;
            let dst = resolve_table_cap(caller_table, dst_table_key, caller.guard, 3)?;
            (src, dst)
        },
    };
    if !src_cap.rights.has(Rights::DERIVE) || !dst_cap.rights.has(Rights::INSTALL) {
        return Err(CapError::InsufficientRights);
    }
    if !tables.contains(dst_cap.address) {
        return Err(CapError::InvalidOperation);
    }
    let derived = match tables.get(src_cap.address) {
        None => {
            return Err(CapError::InvalidOperation);
        },
        Some(src_table) => {
            let src_entry = match src_table.lookup(src_sel, src_cap.guard) {
                Ok(e) => e,
                Err(e) => {
                    return Err(e.with_key_operand(2));
                },
            };
            check_allowlisted(src_entry.object_type(), 2)?;
            if !src_entry.rights().permits(requested) {
                return Err(CapError::InsufficientRights);
            }
            src_entry.derive(requested)
        },
    };
    match tables.get_mut(dst_cap.address) {
        None => Err(CapError::InvalidOperation),
        Some(dst_table) => {
            match dst_table.insert(dst_slot, derived, dst_cap.guard) {
                Ok(key) => Ok((key.to_wire(), 0)),
                Err(failure) => Err(failure.error.with_key_operand(4)),
            }
        },
    }
}

/// What `Move` does to the tables and what it returns: the source entry is
/// removed, then installed at the destination; if that installation fails
/// the entry is put back into its source slot (under a fresh incarnation,
/// when the slot allows one) and the installation error is reported.
pub open spec fn move_plan(tv: Map<u64, KeyTableView>, caller: CallerTable, table_key: RawKey, args: Seq<u64>)
    -> (Result<(u64, u64), CapError>, Map<u64, KeyTableView>) {
    match slot_operand(args) {
        Err(e) => (Err(e), tv),
        Ok(dst_slot) => if args[3] != 0 || args[4] != 0 || args[5] != 0 {
            (Err(CapError::InvalidOperation), tv)
        } else {
            let src_sel = wire_key(args[0]);
            match table_caps(tv, caller, table_key, wire_key(args[1])) {
                Err(e) => (Err(e), tv),
                Ok((src, dst)) => if !bits_contain(src.rights.0, Rights::DERIVE | Rights::REMOVE)
                    || !bits_contain(dst.rights.0, Rights::INSTALL) {
                    (Err(CapError::InsufficientRights), tv)
                } else if src.address == dst.address && spec_bare_index(src, src_sel) == dst_slot {
                    (Err(CapError::SlotOccupied(dst_slot)), tv)
                } else if !tv.contains_key(src.address) {
                    (Err(CapError::InvalidOperation), tv)
                } else {
                    match source_check(tv[src.address], src_sel, src.guard, 2) {
                        Err(e) => (Err(e), tv),
                        Ok(i) => {
                            let moved = tv[src.address].entries[i];
                            let tv1 = tv.insert(src.address, removed(tv[src.address], i));
                            if !tv1.contains_key(dst.address) {
                                (Err(CapError::InvalidOperation), tv1)
                            } else {
                                match insert_check_in(tv1[dst.address], dst_slot, moved) {
                                    Ok(j) => (
                                        Ok((installed_key(tv1[dst.address], j, dst.guard).spec_to_wire(), 0)),
                                        tv1.insert(dst.address, installed(tv1[dst.address], j, moved)),
                                    ),
                                    Err(e) => (
                                        Err(spec_with_key_operand(e, 4)),
                                        match insert_check_in(tv1[src.address], spec_bare_index(src, src_sel), moved) {
                                            Ok(k) => tv1.insert(src.address, installed(tv1[src.address], k, moved)),
                                            Err(_) => tv1,
                                        },
                                    ),
                                }
                            }
                        },
                    }
                },
            }
        },
    }
}

/// `Move` `1`: transfer a capability into a vacant destination slot,
/// invalidating the source (see [`move_plan`]). Moving a capability onto
/// its own slot is rejected as occupied.
pub fn move_key(tables: &mut AddrStore<KeyTable>, caller: CallerTable, table_key: RawKey, args: &[u64; 6])
    -> (r: Result<(u64, u64), CapError>)
    requires
        tables_wf(old(tables)),
    ensures
        tables_wf(final(tables)),
        (r, views(final(tables)@)) == move_plan(views(old(tables)@), caller, table_key, args@),
{
    let src_sel = RawKey::from_wire(args[0]);
    let dst_table_key = RawKey::from_wire(args[1]);
    if args[2] > u32::MAX as u64 {
        return Err(CapError::InvalidKey { key: dst_table_key, reason: InvalidKeyReason::SlotOutOfRange, operand: 4 });
    }
    let dst_slot = KeySlot(args[2] as u32);
    if args[3] != 0 || args[4] != 0 || args[5] != 0 {
        return Err(CapError::InvalidOperation);
    }
    let (src_cap, dst_cap) = match tables.get(caller.addr) {
        None => {
            return Err(CapError::InvalidOperation);
        },
        Some(caller_table) => {
            let src = resolve_table_cap(caller_table, table_key, caller.guard, 0)?;
            let dst = resolve_table_cap(caller_table, dst_table_key, caller.guard, 3)?;
            (src, dst)
        },
    };
    if !src_cap.rights.has(Rights::DERIVE | Rights::REMOVE) || !dst_cap.rights.has(Rights::INSTALL) {
        return Err(CapError::InsufficientRights);
    }
    let back = bare_index(&src_cap, src_sel);
    if src_cap.address == dst_cap.address && back == dst_slot {
        return Err(CapError::SlotOccupied(dst_slot));
    }
    let moved = match tables.get_mut(src_cap.address) {
        None => {
            return Err(CapError::InvalidOperation);
        },
        Some(src_table) => {
            check_source_allowlisted(src_table, src_sel, src_cap.guard, 2)?;
            match src_table.remove(src_sel, src_cap.guard) {
                Ok(e) => e,
                Err(e) => {
                    return Err(e.with_key_operand(2));
                },
            }
        },
    };
    let install = match tables.get_mut(dst_cap.address) {
        None => {
            return Err(CapError::InvalidOperation);
        },
        Some(dst_table) => dst_table.insert(dst_slot, moved, dst_cap.guard),
    };
    match install {
        Ok(key) => Ok((key.to_wire(), 0)),
        Err(failure) => {
            match tables.get_mut(src_cap.address) {
                None => {},
                Some(src_table) => {
                    let _restored = src_table.insert(back, failure.entry, src_cap.guard);
                },
            }
            Err(failure.error.with_key_operand(4))
        },
    }
}

/// What `Delete` does: the removed slot, or the error.
pub open spec fn delete_plan(tv: Map<u64, KeyTableView>, caller: CallerTable, table_key: RawKey, args: Seq<u64>)
    -> Result<(u64, int), CapError> {
    if args[1] != 0 || args[2] != 0 || args[3] != 0 || args[4] != 0 || args[5] != 0 {
        Err(CapError::InvalidOperation)
    } else if !tv.contains_key(caller.addr) {
        Err(CapError::InvalidOperation)
    } else {
        match table_cap_in(tv[caller.addr], table_key, caller.guard, 0) {
            Err(e) => Err(e),
            Ok(src) => if !bits_contain(src.rights.0, Rights::REMOVE) {
                Err(CapError::InsufficientRights)
            } else if !tv.contains_key(src.address) {
                Err(CapError::InvalidOperation)
            } else {
                match key_check_in(tv[src.address], wire_key(args[0]), src.guard) {
                    Err(e) => Err(spec_with_key_operand(e, 2)),
                    Ok(i) => Ok((src.address, i)),
                }
            },
        }
    }
}

/// `Delete` `2`: remove a capability from the invoked table, without
/// retiring the object it names (see [`delete_plan`]).
pub fn delete(tables: &mut AddrStore<KeyTable>, caller: CallerTable, table_key: RawKey, args: &[u64; 6])
    -> (r: Result<(u64, u64), CapError>)
    requires
        tables_wf(old(tables)),
    ensures
        tables_wf(final(tables)),
        match delete_plan(views(old(tables)@), caller, table_key, args@) {
            Err(e) => r == Err::<(u64, u64), CapError>(e) && views(final(tables)@) == views(old(tables)@),
            Ok((t, i)) => r == Ok::<(u64, u64), CapError>((0, 0))
                && views(final(tables)@) == views(old(tables)@).insert(t, removed(views(old(tables)@)[t], i)),
        },
{
    let target_sel = RawKey::from_wire(args[0]);
    if args[1] != 0 || args[2] != 0 || args[3] != 0 || args[4] != 0 || args[5] != 0 {
        return Err(CapError::InvalidOperation);
    }
    let src_cap = match tables.get(caller.addr) {
        None => {
            return Err(CapError::InvalidOperation);
        },
        Some(caller_table) => resolve_table_cap(caller_table, table_key, caller.guard, 0)?,
    };
    if !src_cap.rights.has(Rights::REMOVE) {
        return Err(CapError::InsufficientRights);
    }
    match tables.get_mut(src_cap.address) {
        None => Err(CapError::InvalidOperation),
        Some(table) => match table.remove(target_sel, src_cap.guard) {
            Ok(_) => Ok((0, 0)),
            Err(e) => Err(e.with_key_operand(2)),
        },
    }
}

/// What a `KeyTable` invocation returns and does to the tables' states:
/// `CopyDerive` `0`, `Move` `1` and `Delete` `2` as their plans say;
/// `Revoke` and unknown operations are refused with the tables unchanged.
pub open spec fn table_op_done(ta: Map<u64, KeyTableView>, tb: Map<u64, KeyTableView>, caller: CallerTable,
    table_key: RawKey, op: u64, args: Seq<u64>, r: Result<(u64, u64), CapError>) -> bool {
    &&& op == 0 ==> match copy_derive_plan(ta, caller, table_key, args) {
        Err(e) => r == Err::<(u64, u64), CapError>(e) && tb == ta,
        Ok((dst, i, entry, guard)) => {
            &&& r == Ok::<(u64, u64), CapError>((installed_key(ta[dst], i, guard).spec_to_wire(), 0))
            &&& tb == ta.insert(dst, installed(ta[dst], i, entry))
        },
    }
    &&& op == 1 ==> (r, tb) == move_plan(ta, caller, table_key, args)
    &&& op == 2 ==> match delete_plan(ta, caller, table_key, args) {
        Err(e) => r == Err::<(u64, u64), CapError>(e) && tb == ta,
        Ok((t, i)) => r == Ok::<(u64, u64), CapError>((0, 0)) && tb == ta.insert(t, removed(ta[t], i)),
    }
    &&& op >= 3 ==> r == Err::<(u64, u64), CapError>(CapError::InvalidOperation) && tb == ta
}

/// Handle a `KeyTable` invocation (see [`table_op_done`]). `Revoke` is not
/// supported.
pub fn invoke(tables: &mut AddrStore<KeyTable>, caller: CallerTable, table_key: RawKey, op: u64, args: &[u64; 6])
    -> (r: Result<(u64, u64), CapError>)
    requires
        tables_wf(old(tables)),
    ensures
        tables_wf(final(tables)),
        table_op_done(views(old(tables)@), views(final(tables)@), caller, table_key, op, args@, r),
{
    let op = KeyTableOp::from_op(op)?;
    match op {
        KeyTableOp::CopyDerive => copy_derive(tables, caller, table_key, args),
        KeyTableOp::Move => move_key(tables, caller, table_key, args),
        KeyTableOp::Delete => delete(tables, caller, table_key, args),
        KeyTableOp::Revoke => Err(CapError::InvalidOperation),
    }
}

/// `CopyDerive` never amplifies: the installed copy names the same object
/// with the same kind and badge as its source, and holds no right the
/// source lacks.
pub proof fn lemma_copy_derive_attenuates(tv: Map<u64, KeyTableView>, caller: CallerTable, table_key: RawKey,
    args: Seq<u64>)
    requires
        copy_derive_plan(tv, caller, table_key, args) is Ok,
    ensures
        ({
            let (dst, i, derived, guard) = copy_derive_plan(tv, caller, table_key, args)->Ok_0;
            let src = table_caps(tv, caller, table_key, wire_key(args[1]))->Ok_0.0;
            let e = tv[src.address].entries[source_check(tv[src.address], wire_key(args[0]), src.guard, 2)->Ok_0];
            &&& bits_contain(e.rights.0, derived.rights.0)
            &&& derived.obj_type == e.obj_type
            &&& derived.badge == e.badge
            &&& derived.rights.0 == args[3]
        }),
{
}

/// `Delete` needs `REMOVE` on the invoked table capability: it succeeds
/// only through a table capability holding that right, and through a table
/// capability lacking it (the other arguments zero) it is refused with
/// `InsufficientRights`, every table unchanged.
pub proof fn lemma_delete_needs_remove(ta: Map<u64, KeyTableView>, tb: Map<u64, KeyTableView>, caller: CallerTable,
    table_key: RawKey, args: Seq<u64>, r: Result<(u64, u64), CapError>)
    requires
        table_op_done(ta, tb, caller, table_key, 2, args, r),
    ensures
        r is Ok ==> ({
            let c = ta[caller.addr];
            &&& ta.contains_key(caller.addr)
            &&& key_check_in(c, table_key, caller.guard) is Ok
            &&& c.entries[key_check_in(c, table_key, caller.guard)->Ok_0].rights.0 & Rights::REMOVE != 0
        }),
        ({
            let c = ta[caller.addr];
            let e = c.entries[key_check_in(c, table_key, caller.guard)->Ok_0];
            &&& args[1] == 0 && args[2] == 0 && args[3] == 0 && args[4] == 0 && args[5] == 0
            &&& ta.contains_key(caller.addr)
            &&& key_check_in(c, table_key, caller.guard) is Ok
            &&& e.obj_type.0 == ObjectType::KEY_TABLE
            &&& e.rights.0 & Rights::REMOVE == 0
        }) ==> r == Err::<(u64, u64), CapError>(CapError::InsufficientRights) && tb == ta,
{
    if ta.contains_key(caller.addr) && key_check_in(ta[caller.addr], table_key, caller.guard) is Ok {
        let c = ta[caller.addr];
        let x = c.entries[key_check_in(c, table_key, caller.guard)->Ok_0].rights.0;
        assert((x & 4u8 == 4u8) == (x & 4u8 != 0)) by (bit_vector);
    }
}

/// A capability `CopyDerive` installs holds exactly the requested rights
/// (`x5`), and a copied frame starts unmapped whatever the source's mapping
/// state: its mapped flag is clear and its mapping record zero, so the
/// mapping stays with the source capability alone.
pub proof fn lemma_copy_derive_installs_unmapped(ta: Map<u64, KeyTableView>, tb: Map<u64, KeyTableView>,
    caller: CallerTable, table_key: RawKey, args: Seq<u64>, r: Result<(u64, u64), CapError>)
    requires
        forall|k: u64| #[trigger] ta.contains_key(k) ==> view_sized(ta[k]),
        table_op_done(ta, tb, caller, table_key, 0, args, r),
        r is Ok,
    ensures
        ({
            let (dst, i, derived, guard) = copy_derive_plan(ta, caller, table_key, args)->Ok_0;
            let e = tb[dst].entries[i];
            &&& e.rights.0 == args[3]
            &&& e.payload is Frame ==> ({
                let g = e.payload->Frame_0;
                g.flags & 2 == 0 && g.vaddr == 0 && g.as_index == 0 && g.as_generation == 0
            })
        }),
{
    let (dst, i, derived, guard) = copy_derive_plan(ta, caller, table_key, args)->Ok_0;
    let src = table_caps(ta, caller, table_key, wire_key(args[1]))->Ok_0.0;
    let se = ta[src.address].entries[source_check(ta[src.address], wire_key(args[0]), src.guard, 2)->Ok_0];
    crate::key_entry::lemma_derive_fresh(se, Rights(args[3] as u8));
    assert(tb[dst].entries[i] == derived);
}

/// `Move` transfers a capability unchanged: on success the destination
/// slot holds exactly the entry the source slot held, and the source slot
/// is empty.
pub proof fn lemma_move_transfers(tv: Map<u64, KeyTableView>, caller: CallerTable, table_key: RawKey, args: Seq<u64>)
    requires
        forall|k: u64| #[trigger] tv.contains_key(k) ==> view_sized(tv[k]),
        move_plan(tv, caller, table_key, args).0 is Ok,
    ensures
        ({
            let tb = move_plan(tv, caller, table_key, args).1;
            let (src, dst) = table_caps(tv, caller, table_key, wire_key(args[1]))->Ok_0;
            let i = source_check(tv[src.address], wire_key(args[0]), src.guard, 2)->Ok_0;
            let j = args[2] as int;
            &&& tb[dst.address].entries[j] == tv[src.address].entries[i]
            &&& (src.address != dst.address || i != j) ==> !tb[src.address].entries[i].spec_is_valid()
        }),
{
}

} // verus!
