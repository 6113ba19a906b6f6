use nucleus::access::{ObjectId, PoolTag};
use nucleus::arch::{AArch64ASIDPool, AArch64AddressSpace};
use nucleus::dispatch::handle_cap_invoke;
use nucleus::domain::DcbPages;
use nucleus::error::{CapError, InconsistencyReason, InvalidKeyReason};
use nucleus::invoke::InvokeOutcome;
use nucleus::key::{DomainId, KeySlot, RawKey};
use nucleus::key_entry::KeyEntry;
use nucleus::key_table::KeyTable;
use nucleus::nucleus::{ArchPools, Nucleus, NucleusPools};
use nucleus::object_pool::ObjectPool;
use nucleus::object_type::{ArchType, CoreType, ObjectType};
use nucleus::rights::Rights;
use nucleus::thread::{ExecutionContext, Thread};

const TABLE: u64 = 0x1000;
const GUARD: u32 = 0x3;
const BITS: u8 = 4;
const REGION: u64 = 0x8000_0000;

fn key(slot: u32) -> RawKey {
    RawKey::from_parts(GUARD, BITS, slot, 1)
}

fn fixture(extra: &[(u32, KeyEntry)]) -> Nucleus {
    let mut pools = NucleusPools {
        threads: ObjectPool::new(PoolTag::Thread, 1),
        notifications: ObjectPool::new(PoolTag::Notification, 1),
        event_counts: ObjectPool::new(PoolTag::EventCount, 1),
        arch: ArchPools::new(
            ObjectPool::new(PoolTag::PageTable, 4),
            ObjectPool::new(PoolTag::AddressSpace, 1),
            ObjectPool::new(PoolTag::ASIDPool, 1),
        ),
    };
    let space = pools.arch.address_spaces.allocate(AArch64AddressSpace::new()).unwrap();
    let asids = pools.arch.asid_pools.allocate(AArch64ASIDPool::new()).unwrap();
    let mut n = Nucleus::new(pools, DcbPages::new());
    let mut table = KeyTable::initialize(DomainId(1), BITS);
    let base = [
        (0, KeyEntry::new_keytable(TABLE, GUARD, BITS, Rights::all(), 0)),
        (1, KeyEntry::new_untyped(REGION, 24, false, Rights::all())),
        (5, KeyEntry::from_id(ObjectType(ObjectType::ADDRESS_SPACE), space, Rights::all(), 0)),
        (6, KeyEntry::from_id(ObjectType(ObjectType::ASID_POOL), asids, Rights::all(), 0)),
    ];
    for (slot, entry) in base.iter().chain(extra.iter()) {
        assert!(table.insert(KeySlot(*slot), *entry, GUARD).is_ok());
    }
    n.tables.insert(TABLE, table);
    let thread = Thread { keytable_addr: TABLE, address_space: space, context: ExecutionContext::Running };
    let t = n.pools.threads.allocate(thread).unwrap();
    n.current_thread = Some(t.index as u32);
    n
}

fn invoke(n: &mut Nucleus, slot: u32, op: u64, args: [u64; 6]) -> Result<(u64, u64), CapError> {
    match handle_cap_invoke(n, key(slot), op, &args) {
        Ok(InvokeOutcome::Complete(words)) => Ok(words),
        Ok(InvokeOutcome::Blocked(_)) => panic!("unexpected block"),
        Err(e) => Err(e),
    }
}

fn placeholder(pool: PoolTag) -> ObjectId {
    ObjectId { pool, index: 0, generation: 1 }
}

#[test]
fn kinds_without_handlers_are_unsupported() {
    let domain = KeyEntry::from_id(ObjectType(ObjectType::DOMAIN), placeholder(PoolTag::Domain), Rights::all(), 0);
    let control = KeyEntry::from_id(ObjectType(ObjectType::ASID_CONTROL), placeholder(PoolTag::ASIDControl), Rights::all(), 0);
    let unknown = KeyEntry::from_id(ObjectType(0x20), placeholder(PoolTag::Domain), Rights::all(), 0);
    let unknown_arch = KeyEntry::from_id(ObjectType(0x90), placeholder(PoolTag::Domain), Rights::all(), 0);
    let mut n = fixture(&[(2, domain), (3, control), (4, unknown), (7, unknown_arch)]);
    assert_eq!(invoke(&mut n, 2, 0, [0; 6]), Err(CapError::UnsupportedCoreType(CoreType::Domain)));
    assert_eq!(invoke(&mut n, 3, 0, [0; 6]), Err(CapError::UnsupportedArchType(ArchType::ASIDControl)));
    assert_eq!(invoke(&mut n, 4, 0, [0; 6]), Err(CapError::UnknownCoreType(0x20)));
    assert_eq!(invoke(&mut n, 7, 0, [0; 6]), Err(CapError::UnknownArchType(0x10)));
}

#[test]
fn kind_classification_separates_core_and_architecture_types() {
    assert_eq!(CoreType::try_from(ObjectType(ObjectType::FRAME)), Err(CapError::NotCoreType));
    assert_eq!(ArchType::try_from(ObjectType(ObjectType::NOTIFICATION)), Err(CapError::NotArchType));
    assert_eq!(CoreType::try_from(ObjectType(ObjectType::THREAD)), Ok(CoreType::Thread));
    assert_eq!(ArchType::try_from(ObjectType(ObjectType::PAGE_TABLE)), Ok(ArchType::PageTable));
    assert!(ObjectType(ObjectType::ASID_POOL).is_arch());
    assert_eq!(ObjectType(ObjectType::ASID_POOL).index(), 3);
}

#[test]
fn an_operand_of_the_wrong_kind_is_a_type_mismatch() {
    let mut n = fixture(&[]);
    let frame = [ObjectType::FRAME as u64, 12, 1, key(0).to_wire(), 8, Rights::all().0 as u64];
    assert_eq!(invoke(&mut n, 1, 0, frame), Ok((key(8).to_wire(), 0)));
    let read = Rights::READ as u64;
    assert_eq!(
        invoke(&mut n, 8, 0, [key(6).to_wire(), 0x1000, read, 0, 0, 0]),
        Err(CapError::TypeMismatch {
            expected: ObjectType(ObjectType::ADDRESS_SPACE),
            found: ObjectType(ObjectType::ASID_POOL),
        })
    );
    // Operation numbers belong to the invoked kind: on a Frame, `0` is Map,
    // and Retype's arguments are malformed for it.
    let args = [ObjectType::FRAME as u64, 12, 1, key(0).to_wire(), 9, read];
    assert_eq!(invoke(&mut n, 8, 0, args), Err(CapError::InvalidOperation));
}

#[test]
fn a_frame_copy_cannot_alias_a_mapped_frame() {
    let mut n = fixture(&[]);
    let tables = [ObjectType::PAGE_TABLE as u64, 12, 4, key(0).to_wire(), 8, Rights::all().0 as u64];
    assert_eq!(invoke(&mut n, 1, 0, tables), Ok((key(8).to_wire(), 0)));
    let vaddr = 0x40_0000;
    assert_eq!(invoke(&mut n, 8, 0, [key(5).to_wire(), 0, 0, 0, 0, 0]), Ok((0, 0)));
    for (child, parent) in [(9, 8), (10, 9), (11, 10)] {
        assert_eq!(invoke(&mut n, child, 0, [key(parent).to_wire(), vaddr, 0, 0, 0, 0]), Ok((0, 0)));
    }
    let frame = [ObjectType::FRAME as u64, 12, 1, key(0).to_wire(), 12, Rights::all().0 as u64];
    assert_eq!(invoke(&mut n, 1, 0, frame), Ok((key(12).to_wire(), 0)));
    let read = Rights::READ as u64;
    assert_eq!(invoke(&mut n, 0, 0, [key(12).to_wire(), key(0).to_wire(), 13, read, 0, 0]), Ok((key(13).to_wire(), 0)));
    assert_eq!(invoke(&mut n, 12, 0, [key(5).to_wire(), vaddr, read, 0, 0, 0]), Ok((0, 0)));
    let paddr = REGION + 0x4000;
    assert_eq!(
        invoke(&mut n, 13, 0, [key(5).to_wire(), vaddr + 0x1000, read, 0, 0, 0]),
        Err(CapError::PhysicalAlias { paddr })
    );
}

#[test]
fn error_words_carry_their_details() {
    assert_eq!(CapError::InvalidOperation.code(), (1, 0, 0));
    assert_eq!(
        CapError::TypeMismatch { expected: ObjectType(3), found: ObjectType(0x80) }.code(),
        (3, 3, 0x80)
    );
    let k = RawKey::new(KeySlot(7), 2);
    assert_eq!(
        CapError::InvalidKey { key: k, reason: InvalidKeyReason::NeverIssued, operand: 4 }.code(),
        (4, 0x2_0000_0007, 3 * 256 + 4)
    );
    assert_eq!(
        CapError::InconsistentKey { key: k, reason: InconsistencyReason::CapabilityInvalidated, operand: 0 }.code(),
        (5, 0x2_0000_0007, 256)
    );
    assert_eq!(CapError::SlotOccupied(KeySlot(9)).code(), (7, 9, 0));
    assert_eq!(CapError::InvalidSize(21).code(), (11, 21, 0));
    assert_eq!(CapError::MissingIntermediate { vaddr: 0x1000 }.code(), (23, 0x1000, 0));
    assert_eq!(CapError::PhysicalAlias { paddr: 0x2000 }.code(), (24, 0x2000, 0));
    assert_eq!(CapError::CounterOverflow.code(), (29, 0, 0));
    assert_eq!(CapError::Unknown.code(), (31, 0, 0));
    let moved = CapError::InvalidKey { key: k, reason: InvalidKeyReason::GuardMismatch, operand: 0 }.with_key_operand(2);
    assert_eq!(moved, CapError::InvalidKey { key: k, reason: InvalidKeyReason::GuardMismatch, operand: 2 });
    assert_eq!(CapError::PoolExhausted.with_key_operand(2), CapError::PoolExhausted);
}
