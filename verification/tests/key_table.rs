use nucleus::error::{CapError, InconsistencyReason, InvalidKeyReason};
use nucleus::key::{DomainId, KeySlot, RawKey};
use nucleus::key_entry::KeyEntry;
use nucleus::key_table::{InsertError, KeyTable};
use nucleus::rights::Rights;

const SIZE_BITS: u8 = 8;
const CAPACITY: usize = 256;
const GUARD: u32 = 0xC0F_FEE;

fn table(owner: DomainId) -> KeyTable {
    KeyTable::initialize(owner, SIZE_BITS)
}

fn key(slot: KeySlot, incarnation: u32) -> RawKey {
    RawKey::from_parts(GUARD, SIZE_BITS, slot.0, incarnation)
}

fn frame(marker: u32) -> KeyEntry {
    let mut entry = KeyEntry::new_frame((marker as u64) << 12, 12, marker & 1 != 0, Rights(Rights::READ));
    entry.as_frame_mut().unwrap_or_else(|_| panic!("not a frame")).vaddr = marker as u64;
    entry
}

fn slot(index: usize) -> KeySlot {
    KeySlot(u32::try_from(index).unwrap())
}

fn snapshot(table: &KeyTable) -> (Vec<KeyEntry>, Vec<u32>, DomainId, usize) {
    let entries = (0..table.capacity()).map(|i| *table.entry(i)).collect();
    let incarnations = (0..table.capacity()).map(|i| table.incarnation_of(i)).collect();
    (entries, incarnations, table.owner(), table.len())
}

fn install(table: &mut KeyTable, slot: KeySlot, entry: KeyEntry) -> RawKey {
    table.insert(slot, entry, GUARD).unwrap_or_else(|failure| panic!("installation failed: {:?}", failure.error.code()))
}

fn remove(table: &mut KeyTable, key: RawKey) -> KeyEntry {
    table.remove(key, GUARD).unwrap_or_else(|error| panic!("removal failed: {:?}", error.code()))
}

fn reject_install(table: &mut KeyTable, slot: KeySlot, entry: KeyEntry, expected: CapError) -> KeyEntry {
    let before = snapshot(table);
    let InsertError { error, entry: returned } = match table.insert(slot, entry, GUARD) {
        Err(failure) => failure,
        Ok(_) => panic!("invalid installation succeeded"),
    };
    assert_eq!(error, expected);
    assert_eq!(returned, entry);
    assert_eq!(snapshot(table), before);
    returned
}

fn reject_lookup_and_remove(table: &mut KeyTable, key: RawKey, expected: CapError) {
    let before = snapshot(table);
    match table.lookup(key, GUARD) {
        Err(error) => assert_eq!(error, expected),
        Ok(_) => panic!("invalid lookup succeeded"),
    }
    assert_eq!(snapshot(table), before);
    match table.remove(key, GUARD) {
        Err(error) => assert_eq!(error, expected),
        Ok(_) => panic!("invalid removal succeeded"),
    }
    assert_eq!(snapshot(table), before);
}

fn invalid(key: RawKey, reason: InvalidKeyReason) -> CapError {
    CapError::InvalidKey { key, reason, operand: 0 }
}

fn inconsistent(key: RawKey, reason: InconsistencyReason) -> CapError {
    CapError::InconsistentKey { key, reason, operand: 0 }
}

#[test]
fn table_layout_and_carve_size_follow_the_capacity_exponent() {
    let table = table(DomainId(42));
    assert_eq!(table.owner(), DomainId(42));
    assert_eq!(table.len(), 0);
    assert_eq!(table.capacity(), CAPACITY);
    assert_eq!(table.size_bits(), SIZE_BITS);
    for index in 0..CAPACITY {
        assert!(!table.entry(index).is_valid());
        assert_eq!(table.incarnation_of(index), 0);
    }
    // A 32-byte header, then a 32-byte entry and a 4-byte counter per slot.
    assert_eq!(KeyTable::carve_size(SIZE_BITS), 32 + CAPACITY * (32 + 4));
    assert_eq!(KeyTable::carve_size(SIZE_BITS) % 32, 0);
    assert_eq!(KeyTable::carve_size(1), 128);
    assert!(KeyTable::capacity_for(KeyTable::MIN_SIZE_BITS) >= 2);
    assert!(KeyTable::capacity_for(KeyTable::MAX_SIZE_BITS).is_power_of_two());
    assert!((KeySlot::DEBUG_CONSOLE as usize) < CAPACITY);
}

#[test]
fn null_installation_is_atomic_in_every_slot_state() {
    let mut table = table(DomainId(42));
    for index in 0..CAPACITY {
        let slot = slot(index);
        reject_install(&mut table, slot, KeyEntry::null(), CapError::NullCapability);
        let installed = install(&mut table, slot, frame(slot.0 + 1));
        assert_eq!(installed, key(slot, 1));
        reject_install(&mut table, slot, KeyEntry::null(), CapError::NullCapability);
        remove(&mut table, installed);
        reject_install(&mut table, slot, KeyEntry::null(), CapError::NullCapability);
        assert_eq!(table.len(), 0);
    }
}

#[test]
fn out_of_bounds_installation_returns_the_submitted_entry_unchanged() {
    let mut table = table(DomainId(42));
    let first = install(&mut table, slot(0), frame(7));
    let capacity = CAPACITY as u32;
    let mut values = vec![capacity, capacity + 1, u32::MAX];
    values.extend((0..32).map(|bit| 1_u32 << bit).filter(|&value| value >= capacity));
    for value in values {
        let bad = KeySlot(value);
        for entry in [KeyEntry::null(), frame(99)] {
            let returned = reject_install(&mut table, bad, entry, CapError::InvalidSlot(bad));
            if returned.is_valid() {
                let installed = install(&mut table, slot(1), returned);
                assert_eq!(remove(&mut table, installed), frame(99));
            }
        }
    }
    assert_eq!(table.len(), 1);
    assert_eq!(*table.lookup(first, GUARD).unwrap_or_else(|_| panic!("first entry lost")), frame(7));
}

#[test]
fn occupied_installation_preserves_both_entries_and_all_counters() {
    let mut table = table(DomainId(42));
    for index in 0..CAPACITY {
        let slot = slot(index);
        assert_eq!(install(&mut table, slot, frame(slot.0 + 1)), key(slot, 1));
    }
    assert_eq!(table.len(), CAPACITY);
    for index in 0..CAPACITY {
        let slot = slot(index);
        let returned = reject_install(&mut table, slot, frame(u32::MAX), CapError::SlotOccupied(slot));
        assert_eq!(remove(&mut table, key(slot, 1)), frame(slot.0 + 1));
        let replacement = install(&mut table, slot, returned);
        assert_eq!(replacement, key(slot, 2));
        assert_eq!(*table.lookup(replacement, GUARD).unwrap_or_else(|_| panic!("lost entry")), frame(u32::MAX));
        assert_eq!(table.len(), CAPACITY);
    }
}

#[test]
fn lookup_and_remove_use_canonical_validation_precedence() {
    let mut table = table(DomainId(42));
    let capacity = CAPACITY as u32;
    for value in [0, capacity - 1, capacity, u32::MAX] {
        let bad = RawKey::new(KeySlot(value), 0);
        reject_lookup_and_remove(&mut table, bad, invalid(bad, InvalidKeyReason::ZeroIncarnation));
    }
    for value in [capacity, capacity + 1, u32::MAX] {
        for incarnation in [1, u32::MAX] {
            let bad = RawKey::new(KeySlot(value), incarnation);
            reject_lookup_and_remove(&mut table, bad, invalid(bad, InvalidKeyReason::GuardMismatch));
        }
    }
    for index in [0, 1, CAPACITY / 2, CAPACITY - 1] {
        let wrong = RawKey::from_parts(GUARD ^ 0xFFFF, SIZE_BITS, index as u32, 1);
        reject_lookup_and_remove(&mut table, wrong, invalid(wrong, InvalidKeyReason::GuardMismatch));
    }
    for index in 0..CAPACITY {
        let slot = slot(index);
        for incarnation in [1, 2, u32::MAX] {
            let never = key(slot, incarnation);
            reject_lookup_and_remove(&mut table, never, invalid(never, InvalidKeyReason::NeverIssued));
        }
        let installed = install(&mut table, slot, frame(slot.0 + 1));
        let zero = RawKey::from_parts(GUARD, SIZE_BITS, slot.0, 0);
        reject_lookup_and_remove(&mut table, zero, invalid(zero, InvalidKeyReason::ZeroIncarnation));
        for incarnation in [2, u32::MAX] {
            let bad = key(slot, incarnation);
            reject_lookup_and_remove(&mut table, bad, inconsistent(bad, InconsistencyReason::SlotIncarnationMismatch));
        }
        remove(&mut table, installed);
        reject_lookup_and_remove(&mut table, zero, invalid(zero, InvalidKeyReason::ZeroIncarnation));
        for incarnation in [2, u32::MAX] {
            let bad = key(slot, incarnation);
            reject_lookup_and_remove(&mut table, bad, inconsistent(bad, InconsistencyReason::SlotIncarnationMismatch));
        }
        reject_lookup_and_remove(
            &mut table,
            installed,
            inconsistent(installed, InconsistencyReason::CapabilityInvalidated),
        );
    }
}

#[test]
fn same_type_replacement_rejects_stale_removal_without_consuming_incarnations() {
    let mut table = table(DomainId(42));
    let slot = slot(CAPACITY - 1);
    let first = install(&mut table, slot, frame(7));
    let returned = reject_install(&mut table, slot, frame(99), CapError::SlotOccupied(slot));
    assert_eq!(remove(&mut table, first), frame(7));
    reject_install(&mut table, slot, KeyEntry::null(), CapError::NullCapability);
    let second = install(&mut table, slot, returned);
    assert_eq!(first, key(slot, 1));
    assert_eq!(second, key(slot, 2));
    assert_eq!(table.len(), 1);
    reject_lookup_and_remove(&mut table, first, inconsistent(first, InconsistencyReason::SlotIncarnationMismatch));
    assert_eq!(*table.lookup(second, GUARD).unwrap_or_else(|_| panic!("replacement lost")), frame(99));
    let entry = remove(&mut table, second);
    assert_eq!(table.len(), 0);
    assert_eq!(table.incarnation_of(slot.0 as usize), 2);
    reject_lookup_and_remove(&mut table, first, inconsistent(first, InconsistencyReason::SlotIncarnationMismatch));
    reject_lookup_and_remove(&mut table, second, inconsistent(second, InconsistencyReason::CapabilityInvalidated));
    let third = install(&mut table, slot, entry);
    assert_eq!(third, key(slot, 3));
}

#[test]
fn full_capacity_count_and_cleanup_follow_the_arrays_without_wrapping() {
    let mut table = table(DomainId(42));
    for incarnation in [1, 2] {
        for index in 0..CAPACITY {
            let slot = slot(index);
            assert_eq!(install(&mut table, slot, frame(slot.0 + 1)), key(slot, incarnation));
            assert_eq!(table.len(), index + 1);
        }
        assert_eq!(table.len(), table.capacity());
        for index in 0..CAPACITY {
            assert!(table.entry(index).is_valid());
            assert_eq!(table.incarnation_of(index), incarnation);
        }
        for index in (0..CAPACITY).rev() {
            let slot = slot(index);
            assert_eq!(remove(&mut table, key(slot, incarnation)), frame(slot.0 + 1));
            assert_eq!(table.len(), index);
        }
        for index in 0..CAPACITY {
            assert!(!table.entry(index).is_valid());
            assert_eq!(table.incarnation_of(index), incarnation);
        }
    }
}

#[test]
fn guard_mismatch_rejects_keys_minted_for_another_table() {
    let mut table = table(DomainId(42));
    let installed = install(&mut table, slot(5), frame(7));
    assert_eq!(installed.slot().0, (GUARD << SIZE_BITS) | 5);
    assert_eq!(*table.lookup(installed, GUARD).unwrap_or_else(|_| panic!("guarded key must resolve")), frame(7));
    for wrong in [0_u32, GUARD ^ 1, GUARD + 1, u32::MAX] {
        let foreign = RawKey::from_parts(wrong, SIZE_BITS, 5, 1);
        reject_lookup_and_remove(&mut table, foreign, invalid(foreign, InvalidKeyReason::GuardMismatch));
    }
    let zero = RawKey::from_parts(GUARD ^ 1, SIZE_BITS, 5, 0);
    reject_lookup_and_remove(&mut table, zero, invalid(zero, InvalidKeyReason::ZeroIncarnation));
    assert_eq!(table.len(), 1);
}

#[test]
fn variable_capacity_tables_bound_their_own_indices() {
    const SMALL_BITS: u8 = 2;
    const SMALL_GUARD: u32 = 0x1234_5678;
    let mut table = KeyTable::initialize(DomainId(7), SMALL_BITS);
    assert_eq!(table.capacity(), 4);
    assert_eq!(table.size_bits(), SMALL_BITS);
    let installed = table.insert(slot(3), frame(7), SMALL_GUARD).unwrap_or_else(|_| panic!("small-table install failed"));
    assert_eq!(installed, RawKey::from_parts(SMALL_GUARD, SMALL_BITS, 3, 1));
    assert_eq!(table.check_insert(slot(4)), Err(CapError::InvalidSlot(KeySlot(4))));
    assert!(matches!(
        table.insert(slot(4), frame(9), SMALL_GUARD),
        Err(InsertError { error: CapError::InvalidSlot(_), .. })
    ));
    let foreign = key(slot(3), 1);
    assert!(matches!(
        table.lookup(foreign, SMALL_GUARD),
        Err(CapError::InvalidKey { reason: InvalidKeyReason::GuardMismatch, .. })
    ));
    assert_eq!(table.len(), 1);
}

#[test]
fn self_table_capability_reads_the_well_known_slot() {
    let mut table = table(DomainId(42));
    let well_known = KeySlot(KeySlot::SELF_KEYTABLE);
    assert_eq!(table.self_table_capability(), None);
    install(&mut table, well_known, frame(9));
    assert_eq!(table.self_table_capability(), None);
    remove(&mut table, key(well_known, 1));
    install(&mut table, well_known, KeyEntry::new_keytable(0x1000, GUARD, SIZE_BITS, Rights::all(), 0));
    assert_eq!(table.self_table_capability(), Some((0x1000, GUARD, SIZE_BITS)));
}

#[test]
fn exhausted_slot_code_is_stable() {
    assert_eq!(CapError::KeySlotExhausted(KeySlot(0)).code(), (28, 0, 0));
}

#[test]
fn a_run_installs_consecutive_slots_under_advanced_incarnations() {
    let mut table = table(DomainId(1));
    let taken = install(&mut table, slot(4), frame(1));
    assert_eq!(table.check_run(2, 3), Err(CapError::SlotOccupied(slot(4))));
    remove(&mut table, taken);
    assert_eq!(table.check_run(2, 3), Ok(()));
    assert_eq!(table.check_run(254, 3), Err(CapError::InvalidSlot(slot(256))));
    assert_eq!(table.check_run(u32::MAX, 2), Err(CapError::InvalidSlot(KeySlot(u32::MAX))));
    let entries = vec![frame(10), frame(11), frame(12)];
    let first = table.insert_run(2, &entries, GUARD);
    assert_eq!(first, key(slot(2), 1));
    assert_eq!(*table.entry(3), frame(11));
    assert_eq!(table.incarnation_of(4), 2);
    assert_eq!(table.len(), 3);
}
