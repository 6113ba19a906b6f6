use nucleus::access::{ObjectId, PoolTag};
use nucleus::arch::{AArch64ASIDPool, AArch64AddressSpace};
use nucleus::dispatch::handle_cap_invoke;
use nucleus::domain::DcbPages;
use nucleus::error::{CapError, InconsistencyReason};
use nucleus::invoke::InvokeOutcome;
use nucleus::key::{DomainId, KeySlot, RawKey};
use nucleus::key_entry::KeyEntry;
use nucleus::key_table::KeyTable;
use nucleus::nucleus::{ArchPools, HwAction, Nucleus, NucleusPools};
use nucleus::object_pool::ObjectPool;
use nucleus::object_type::ObjectType;
use nucleus::page_table::Pte;
use nucleus::rights::Rights;
use nucleus::thread::{ExecutionContext, Thread};

const TABLE: u64 = 0x1000;
const GUARD: u32 = 0x9;
const BITS: u8 = 4;
const REGION: u64 = 0x8000_0000;
const VADDR: u64 = 0x1234_5000;

fn key(slot: u32, incarnation: u32) -> RawKey {
    RawKey::from_parts(GUARD, BITS, slot, incarnation)
}

fn wire(slot: u32) -> u64 {
    key(slot, 1).to_wire()
}

/// A nucleus whose running thread owns the table at `TABLE` (self-table
/// capability in slot 0, an Untyped over 1 MiB in slot 1) and runs in the
/// address space named in slot 5; slot 6 holds the ASID pool.
fn fixture() -> (Nucleus, ObjectId) {
    let mut pools = NucleusPools {
        threads: ObjectPool::new(PoolTag::Thread, 2),
        notifications: ObjectPool::new(PoolTag::Notification, 1),
        event_counts: ObjectPool::new(PoolTag::EventCount, 1),
        arch: ArchPools::new(
            ObjectPool::new(PoolTag::PageTable, 4),
            ObjectPool::new(PoolTag::AddressSpace, 1),
            ObjectPool::new(PoolTag::ASIDPool, 1),
        ),
    };
    let space = pools.arch.address_spaces.allocate(AArch64AddressSpace::new()).unwrap();
    let asids = pools.arch.asid_pools.allocate(AArch64ASIDPool::new()).unwrap();
    let mut n = Nucleus::new(pools, DcbPages::new());
    let mut table = KeyTable::initialize(DomainId(1), BITS);
    let entries = [
        (0, KeyEntry::new_keytable(TABLE, GUARD, BITS, Rights::all(), 0)),
        (1, KeyEntry::new_untyped(REGION, 20, false, Rights::all())),
        (5, KeyEntry::from_id(ObjectType(ObjectType::ADDRESS_SPACE), space, Rights::all(), 0)),
        (6, KeyEntry::from_id(ObjectType(ObjectType::ASID_POOL), asids, Rights::all(), 0)),
    ];
    for (slot, entry) in entries {
        assert!(table.insert(KeySlot(slot), entry, GUARD).is_ok());
    }
    n.tables.insert(TABLE, table);
    let thread = Thread { keytable_addr: TABLE, address_space: space, context: ExecutionContext::Running };
    let t = n.pools.threads.allocate(thread).unwrap();
    n.current_thread = Some(t.index as u32);
    (n, space)
}

fn invoke(n: &mut Nucleus, slot: u32, op: u64, args: [u64; 6]) -> Result<(u64, u64), CapError> {
    match handle_cap_invoke(n, key(slot, 1), op, &args) {
        Ok(InvokeOutcome::Complete(words)) => Ok(words),
        Ok(InvokeOutcome::Blocked(_)) => panic!("unexpected block"),
        Err(e) => Err(e),
    }
}

fn table(n: &Nucleus) -> &KeyTable {
    n.tables.get(TABLE).unwrap()
}

#[test]
fn a_frame_maps_through_a_built_translation_tree_and_unmaps() {
    let (mut n, space) = fixture();
    let retype = [ObjectType::PAGE_TABLE as u64, 12, 4, wire(0), 8, Rights::all().0 as u64];
    assert_eq!(invoke(&mut n, 1, 0, retype), Ok((wire(8), 0)));
    // Root first: an address space takes a root at address zero only.
    assert_eq!(invoke(&mut n, 8, 0, [wire(5), 0x1000, 0, 0, 0, 0]), Err(CapError::InvalidOperation));
    assert_eq!(invoke(&mut n, 8, 0, [wire(5), 0, 0, 0, 0, 0]), Ok((0, 0)));
    assert_eq!(n.pools.arch.address_spaces.validate(space).unwrap().translation_root(), Some(REGION));
    // A table under an uninstalled parent is refused.
    assert_eq!(invoke(&mut n, 10, 0, [wire(9), VADDR, 0, 0, 0, 0]), Err(CapError::NotMapped));
    for (child, parent) in [(9, 8), (10, 9), (11, 10)] {
        assert_eq!(invoke(&mut n, child, 0, [wire(parent), VADDR, 0, 0, 0, 0]), Ok((0, 0)));
    }
    let level0 = n.phys.read(REGION, 0).unwrap();
    assert_eq!(level0, (REGION + 0x1000) | Pte::VALID | Pte::DESCRIPTOR);
    // The lowest free ASID after the kernel's own is handed out.
    assert_eq!(invoke(&mut n, 6, 0, [wire(5), 0, 0, 0, 0, 0]), Ok((1, 0)));
    assert_eq!(invoke(&mut n, 6, 0, [wire(5), 0, 0, 0, 0, 0]), Err(CapError::AlreadyMapped));
    assert_eq!(invoke(&mut n, 5, 0, [0; 6]), Ok((0, 0)));
    assert_eq!(n.hw.last(), Some(&HwAction::InstallTranslationContext { root: REGION, asid: 1 }));

    let frame = [ObjectType::FRAME as u64, 12, 1, wire(0), 12, Rights::all().0 as u64];
    assert_eq!(invoke(&mut n, 1, 0, frame), Ok((wire(12), 0)));
    let paddr = REGION + 0x4000;
    assert_eq!(invoke(&mut n, 12, 2, [0; 6]), Ok((paddr, 0x1000)));
    let rw = (Rights::READ | Rights::WRITE) as u64;
    assert_eq!(invoke(&mut n, 12, 0, [wire(5), VADDR, Rights::WRITE as u64, 0, 0, 0]), Err(CapError::InsufficientRights));
    assert_eq!(invoke(&mut n, 12, 0, [wire(5), VADDR, rw, 0, 0, 0]), Ok((0, 0)));
    let leaf_table = REGION + 0x3000;
    let slot = ((VADDR >> 12) & 0x1FF) as usize;
    let leaf = n.phys.read(leaf_table, slot).unwrap();
    assert_eq!(leaf & 0x0000_FFFF_FFFF_F000, paddr);
    assert_ne!(leaf & Pte::VALID, 0);
    assert_eq!(invoke(&mut n, 12, 0, [wire(5), VADDR, rw, 0, 0, 0]), Err(CapError::AlreadyMapped));
    assert!(table(&n).lookup(key(12, 1), GUARD).unwrap().as_frame().unwrap().is_mapped());
    // The leaf table is not empty while the frame is mapped.
    assert!(invoke(&mut n, 11, 1, [0; 6]).is_err());

    assert_eq!(invoke(&mut n, 12, 1, [0; 6]), Ok((0, 0)));
    assert_eq!(n.phys.read(leaf_table, slot), Some(0));
    assert_eq!(n.hw.last(), Some(&HwAction::InvalidateTlbVa { asid: 1, vaddr: VADDR }));
    assert_eq!(invoke(&mut n, 12, 1, [0; 6]), Err(CapError::NotMapped));
    // Different backing at the same address: a second frame maps there.
    let frame2 = [ObjectType::FRAME as u64, 12, 1, wire(0), 13, Rights::all().0 as u64];
    assert_eq!(invoke(&mut n, 1, 0, frame2), Ok((wire(13), 0)));
    let paddr2 = REGION + 0x5000;
    assert_eq!(invoke(&mut n, 13, 2, [0; 6]), Ok((paddr2, 0x1000)));
    assert_eq!(invoke(&mut n, 13, 0, [wire(5), VADDR, rw, 0, 0, 0]), Ok((0, 0)));
    assert_eq!(n.phys.read(leaf_table, slot).unwrap() & 0x0000_FFFF_FFFF_F000, paddr2);
    assert_eq!(invoke(&mut n, 13, 1, [0; 6]), Ok((0, 0)));
    assert_eq!(n.phys.read(leaf_table, slot), Some(0));
    assert_eq!(invoke(&mut n, 11, 1, [0; 6]), Ok((0, 0)));
    assert_eq!(n.phys.read(REGION + 0x2000, ((VADDR >> 21) & 0x1FF) as usize), Some(0));
}

#[test]
fn a_frame_without_a_root_or_rights_cannot_map() {
    let (mut n, _) = fixture();
    let frame = [ObjectType::FRAME as u64, 12, 1, wire(0), 12, Rights::READ as u64];
    assert_eq!(invoke(&mut n, 1, 0, frame), Ok((wire(12), 0)));
    let r = Rights::READ as u64;
    assert_eq!(invoke(&mut n, 12, 0, [wire(5), VADDR, r, 0, 0, 0]), Err(CapError::MissingIntermediate { vaddr: VADDR }));
    assert_eq!(invoke(&mut n, 12, 2, [0; 6]), Err(CapError::InsufficientRights));
    assert_eq!(invoke(&mut n, 12, 0, [wire(5), VADDR, r, 1, 0, 0]), Err(CapError::InvalidOperation));
    assert_eq!(invoke(&mut n, 12, 7, [0; 6]), Err(CapError::InvalidOperation));
    // Activation needs a root and an ASID.
    assert_eq!(invoke(&mut n, 5, 0, [0; 6]), Err(CapError::NotMapped));
    assert_eq!(invoke(&mut n, 6, 0, [wire(5), 0, 0, 0, 0, 0]), Err(CapError::NotMapped));
}

#[test]
fn copy_derive_attenuates_and_never_amplifies() {
    let (mut n, _) = fixture();
    let frame = KeyEntry::new_frame(REGION, 12, false, Rights(Rights::READ | Rights::WRITE | Rights::GRANT));
    assert!(n.tables.get_mut(TABLE).unwrap().insert(KeySlot(2), frame, GUARD).is_ok());
    let read = Rights::READ as u64;
    assert_eq!(invoke(&mut n, 0, 0, [wire(2), wire(0), 3, read, 0, 0]), Ok((wire(3), 0)));
    let copy = *table(&n).lookup(key(3, 1), GUARD).unwrap();
    assert_eq!(copy.rights(), Rights(Rights::READ));
    assert_eq!(copy.object_type(), ObjectType(ObjectType::FRAME));
    assert_eq!(copy.as_frame().unwrap().paddr, REGION);
    // A copy of the copy cannot regain what was dropped.
    let rw = (Rights::READ | Rights::WRITE) as u64;
    assert_eq!(invoke(&mut n, 0, 0, [wire(3), wire(0), 4, rw, 0, 0]), Err(CapError::InsufficientRights));
    // Only tables and frames can be copied.
    assert_eq!(
        invoke(&mut n, 0, 0, [wire(1), wire(0), 4, read, 0, 0]),
        Err(CapError::InvalidObjectType(ObjectType(ObjectType::UNTYPED)))
    );
    assert_eq!(invoke(&mut n, 0, 0, [wire(2), wire(0), 3, read, 0, 0]), Err(CapError::SlotOccupied(KeySlot(3))));
}

#[test]
fn move_transfers_and_delete_removes() {
    let (mut n, _) = fixture();
    let frame = KeyEntry::new_frame(REGION, 12, false, Rights(Rights::READ));
    assert!(n.tables.get_mut(TABLE).unwrap().insert(KeySlot(3), frame, GUARD).is_ok());
    assert_eq!(invoke(&mut n, 0, 1, [wire(3), wire(0), 4, 0, 0, 0]), Ok((wire(4), 0)));
    assert_eq!(*table(&n).lookup(key(4, 1), GUARD).unwrap(), frame);
    assert_eq!(
        table(&n).lookup(key(3, 1), GUARD),
        Err(CapError::InconsistentKey { key: key(3, 1), reason: InconsistencyReason::CapabilityInvalidated, operand: 0 })
    );
    assert_eq!(invoke(&mut n, 0, 1, [wire(4), wire(0), 4, 0, 0, 0]), Err(CapError::SlotOccupied(KeySlot(4))));
    assert_eq!(invoke(&mut n, 0, 2, [wire(4), 0, 0, 0, 0, 0]), Ok((0, 0)));
    assert!(table(&n).lookup(key(4, 1), GUARD).is_err());
    assert_eq!(invoke(&mut n, 0, 3, [0; 6]), Err(CapError::InvalidOperation));
    assert_eq!(table(&n).len(), 4);
}

#[test]
fn retiring_another_thread_frees_its_slot() {
    let (mut n, _) = fixture();
    let other = Thread {
        keytable_addr: TABLE,
        address_space: ObjectId { pool: PoolTag::AddressSpace, index: 0, generation: 1 },
        context: ExecutionContext::NotStarted { pc: 0x4000, stack_top: 0x9000 },
    };
    let id = n.pools.threads.allocate(other).unwrap();
    let entry = KeyEntry::from_id(ObjectType(ObjectType::THREAD), id, Rights::all(), 0);
    assert!(n.tables.get_mut(TABLE).unwrap().insert(KeySlot(7), entry, GUARD).is_ok());
    assert!(n.scheduler.push(id.index));
    assert_eq!(invoke(&mut n, 7, 3, [0; 6]), Err(CapError::InvalidOperation));
    assert_eq!(invoke(&mut n, 7, 4, [0; 6]), Ok((0, 0)));
    assert!(n.pools.threads.validate(id).is_err());
    assert!(n.scheduler.is_empty());
    assert_eq!(invoke(&mut n, 7, 4, [0; 6]), Err(CapError::InvalidOperation));
}

/// Carve four tables into slots 8 to 11 and install them as the root and
/// the walk for `VADDR` of the address space in slot 5.
fn build_walk(n: &mut Nucleus) {
    let retype = [ObjectType::PAGE_TABLE as u64, 12, 4, wire(0), 8, Rights::all().0 as u64];
    assert_eq!(invoke(n, 1, 0, retype), Ok((wire(8), 0)));
    assert_eq!(invoke(n, 8, 0, [wire(5), 0, 0, 0, 0, 0]), Ok((0, 0)));
    for (child, parent) in [(9, 8), (10, 9), (11, 10)] {
        assert_eq!(invoke(n, child, 0, [wire(parent), VADDR, 0, 0, 0, 0]), Ok((0, 0)));
    }
}

#[test]
fn a_frame_whose_base_is_not_descriptor_aligned_maps_but_cannot_unmap() {
    let (mut n, _) = fixture();
    build_walk(&mut n);
    let odd = KeyEntry::new_frame(REGION + 0x8_0001, 12, false, Rights::all());
    assert!(n.tables.get_mut(TABLE).unwrap().insert(KeySlot(12), odd, GUARD).is_ok());
    let rw = (Rights::READ | Rights::WRITE) as u64;
    assert_eq!(invoke(&mut n, 12, 0, [wire(5), VADDR, rw, 0, 0, 0]), Ok((0, 0)));
    // The descriptor keeps only the address bits, so the recorded frame no
    // longer matches it.
    assert_eq!(invoke(&mut n, 12, 1, [0; 6]), Err(CapError::InvalidOperation));
}

#[test]
fn unmapping_restores_the_translation_tables_the_map_found() {
    let (mut n, _) = fixture();
    build_walk(&mut n);
    let frame = [ObjectType::FRAME as u64, 12, 1, wire(0), 12, Rights::all().0 as u64];
    assert_eq!(invoke(&mut n, 1, 0, frame), Ok((wire(12), 0)));
    let leaf_table = REGION + 0x3000;
    let before: Vec<Option<u64>> = (0..512).map(|i| n.phys.read(leaf_table, i)).collect();
    let fresh = *table(&n).lookup(key(12, 1), GUARD).unwrap();
    let rw = (Rights::READ | Rights::WRITE) as u64;
    assert_eq!(invoke(&mut n, 12, 0, [wire(5), VADDR, rw, 0, 0, 0]), Ok((0, 0)));
    assert_eq!(invoke(&mut n, 12, 1, [0; 6]), Ok((0, 0)));
    let after: Vec<Option<u64>> = (0..512).map(|i| n.phys.read(leaf_table, i)).collect();
    assert_eq!(before, after);
    assert_eq!(*table(&n).lookup(key(12, 1), GUARD).unwrap(), fresh);
}

#[test]
fn retiring_a_bound_address_space_returns_its_asid_to_the_pool() {
    let mut pools = NucleusPools {
        threads: ObjectPool::new(PoolTag::Thread, 1),
        notifications: ObjectPool::new(PoolTag::Notification, 1),
        event_counts: ObjectPool::new(PoolTag::EventCount, 1),
        arch: ArchPools::new(
            ObjectPool::new(PoolTag::PageTable, 2),
            ObjectPool::new(PoolTag::AddressSpace, 2),
            ObjectPool::new(PoolTag::ASIDPool, 1),
        ),
    };
    let own = pools.arch.address_spaces.allocate(AArch64AddressSpace::new()).unwrap();
    let other = pools.arch.address_spaces.allocate(AArch64AddressSpace::new()).unwrap();
    let asids = pools.arch.asid_pools.allocate(AArch64ASIDPool::new()).unwrap();
    let mut n = Nucleus::new(pools, DcbPages::new());
    let mut table = KeyTable::initialize(DomainId(1), BITS);
    let entries = [
        (0, KeyEntry::new_keytable(TABLE, GUARD, BITS, Rights::all(), 0)),
        (1, KeyEntry::new_untyped(REGION, 20, false, Rights::all())),
        (5, KeyEntry::from_id(ObjectType(ObjectType::ADDRESS_SPACE), other, Rights::all(), 0)),
        (6, KeyEntry::from_id(ObjectType(ObjectType::ASID_POOL), asids, Rights::all(), 0)),
    ];
    for (slot, entry) in entries {
        assert!(table.insert(KeySlot(slot), entry, GUARD).is_ok());
    }
    n.tables.insert(TABLE, table);
    let thread = Thread { keytable_addr: TABLE, address_space: own, context: ExecutionContext::Running };
    let t = n.pools.threads.allocate(thread).unwrap();
    n.current_thread = Some(t.index as u32);
    let retype = [ObjectType::PAGE_TABLE as u64, 12, 1, wire(0), 8, Rights::all().0 as u64];
    assert_eq!(invoke(&mut n, 1, 0, retype), Ok((wire(8), 0)));
    assert_eq!(invoke(&mut n, 8, 0, [wire(5), 0, 0, 0, 0, 0]), Ok((0, 0)));
    assert_eq!(invoke(&mut n, 6, 0, [wire(5), 0, 0, 0, 0, 0]), Ok((1, 0)));
    // A space with a root cannot retire; withdraw the root first.
    assert_eq!(invoke(&mut n, 5, 1, [0; 6]), Err(CapError::InvalidOperation));
    assert_eq!(invoke(&mut n, 8, 1, [0; 6]), Ok((0, 0)));
    assert_eq!(invoke(&mut n, 5, 1, [0; 6]), Ok((0, 0)));
    assert_eq!(n.hw.last(), Some(&HwAction::InvalidateTlbAsid { asid: 1 }));
    // The freed ASID is the lowest free one again.
    let fresh = n.pools.arch.address_spaces.allocate(AArch64AddressSpace::new()).unwrap();
    let cap = KeyEntry::from_id(ObjectType(ObjectType::ADDRESS_SPACE), fresh, Rights::all(), 0);
    assert!(n.tables.get_mut(TABLE).unwrap().insert(KeySlot(7), cap, GUARD).is_ok());
    assert_eq!(invoke(&mut n, 8, 0, [wire(7), 0, 0, 0, 0, 0]), Ok((0, 0)));
    assert_eq!(invoke(&mut n, 6, 0, [wire(7), 0, 0, 0, 0, 0]), Ok((1, 0)));
}

#[test]
fn an_executable_writable_frame_stays_reachable_from_user_space() {
    let (mut n, _) = fixture();
    build_walk(&mut n);
    let frame = [ObjectType::FRAME as u64, 12, 1, wire(0), 12, Rights::all().0 as u64];
    assert_eq!(invoke(&mut n, 1, 0, frame), Ok((wire(12), 0)));
    let rwx = (Rights::READ | Rights::WRITE | Rights::EXECUTE) as u64;
    assert_eq!(invoke(&mut n, 12, 0, [wire(5), VADDR, rwx, 0, 0, 0]), Ok((0, 0)));
    let slot = ((VADDR >> 12) & 0x1FF) as usize;
    let leaf = n.phys.read(REGION + 0x3000, slot).unwrap();
    assert_eq!(leaf & 0xC0, Pte::AP_RW_USER);
    assert_eq!(leaf & (Pte::PXN | Pte::UXN), 0);
    // Without EXECUTE the mapping is execute-never.
    assert_eq!(invoke(&mut n, 12, 1, [0; 6]), Ok((0, 0)));
    let rw = (Rights::READ | Rights::WRITE) as u64;
    assert_eq!(invoke(&mut n, 12, 0, [wire(5), VADDR, rw, 0, 0, 0]), Ok((0, 0)));
    let leaf = n.phys.read(REGION + 0x3000, slot).unwrap();
    assert_eq!(leaf & 0xC0, Pte::AP_RW_USER);
    assert_eq!(leaf & (Pte::PXN | Pte::UXN), Pte::PXN | Pte::UXN);
}
