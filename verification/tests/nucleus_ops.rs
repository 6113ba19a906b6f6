use nucleus::access::{ObjectId, PoolTag};
use nucleus::completion::PendingState;
use nucleus::dispatch::{handle_cap_invoke, invoke_wake_count, wakes_fit};
use nucleus::domain::DcbPages;
use nucleus::entry::{cap_invoke, is_svc64, park_and_switch, syscall_wakes_fit, Resume, SwitchFault, SyscallAction};
use nucleus::error::{CapError, InvalidKeyReason};
use nucleus::event_count::{AdvanceOutcome, AwaitOutcome, EventCount};
use nucleus::invoke::InvokeOutcome;
use nucleus::key::{DomainId, KeySlot, RawKey};
use nucleus::key_entry::KeyEntry;
use nucleus::key_table::KeyTable;
use nucleus::notification::{Notification, WaitOutcome};
use nucleus::nucleus::{ArchPools, HwAction, Nucleus, NucleusPools};
use nucleus::sched::Scheduler;
use nucleus::object_pool::ObjectPool;
use nucleus::object_type::ObjectType;
use nucleus::rights::Rights;
use nucleus::syscall_status;
use nucleus::thread::{ExecutionContext, Thread};

const TABLE: u64 = 0x1000;
const GUARD: u32 = 0x5;
const BITS: u8 = 4;
const REGION: u64 = 0x8000_0000;

fn pools(notifications: usize, page_tables: usize) -> NucleusPools {
    NucleusPools {
        threads: ObjectPool::new(PoolTag::Thread, 3),
        notifications: ObjectPool::new(PoolTag::Notification, notifications),
        event_counts: ObjectPool::new(PoolTag::EventCount, 1),
        arch: ArchPools::new(
            ObjectPool::new(PoolTag::PageTable, page_tables),
            ObjectPool::new(PoolTag::AddressSpace, 0),
            ObjectPool::new(PoolTag::ASIDPool, 0),
        ),
    }
}

fn thread_fixture(context: ExecutionContext) -> Thread {
    Thread {
        keytable_addr: TABLE,
        address_space: ObjectId { pool: PoolTag::AddressSpace, index: 0, generation: 1 },
        context,
    }
}

fn key(slot: u32, incarnation: u32) -> RawKey {
    RawKey::from_parts(GUARD, BITS, slot, incarnation)
}

/// A nucleus whose running thread owns the table at `TABLE`: its
/// self-table capability in slot 0, an Untyped over 1 MiB at `REGION` in
/// slot 1.
fn fixture(notifications: usize, page_tables: usize) -> (Nucleus, ObjectId) {
    let mut n = Nucleus::new(pools(notifications, page_tables), DcbPages::new());
    let mut table = KeyTable::initialize(DomainId(1), BITS);
    assert!(table.insert(KeySlot(0), KeyEntry::new_keytable(TABLE, GUARD, BITS, Rights::all(), 0), GUARD).is_ok());
    assert!(table.insert(KeySlot(1), KeyEntry::new_untyped(REGION, 20, false, Rights::all()), GUARD).is_ok());
    n.tables.insert(TABLE, table);
    let t = n.pools.threads.allocate(thread_fixture(ExecutionContext::Running)).unwrap();
    n.current_thread = Some(t.index as u32);
    (n, t)
}

fn caller_table(n: &Nucleus) -> &KeyTable {
    n.tables.get(TABLE).unwrap()
}

fn retype_args(kind: u8, size_bits: u8, count: u64, first: u64) -> [u64; 6] {
    [kind as u64, size_bits as u64, count, key(0, 1).to_wire(), first, Rights::all().0 as u64]
}

fn watermark(n: &Nucleus) -> usize {
    caller_table(n).lookup(key(1, 1), GUARD).unwrap().as_untyped().unwrap().watermark_bytes()
}

#[test]
fn retype_notifications_installs_fresh_pool_objects() {
    let (mut n, _) = fixture(2, 0);
    let r = handle_cap_invoke(&mut n, key(1, 1), 0, &retype_args(ObjectType::NOTIFICATION, 0, 2, 4));
    assert_eq!(r, Ok(InvokeOutcome::Complete((key(4, 1).to_wire(), 0))));
    assert_eq!(n.pools.notifications.len(), 2);
    let table = caller_table(&n);
    for slot in [4, 5] {
        let entry = table.lookup(key(slot, 1), GUARD).unwrap();
        assert_eq!(entry.object_type(), ObjectType(ObjectType::NOTIFICATION));
        let id = entry.object_id().unwrap();
        let notification = n.pools.notifications.validate(id).unwrap();
        assert_eq!(notification.pending_bits(), 0);
    }
    // Pool-backed kinds use no region bytes.
    assert_eq!(watermark(&n), 0);
}

#[test]
fn retype_frames_carves_aligned_runs_and_requests_sanitization() {
    let (mut n, _) = fixture(0, 0);
    let r = handle_cap_invoke(&mut n, key(1, 1), 0, &retype_args(ObjectType::FRAME, 12, 2, 2));
    assert_eq!(r, Ok(InvokeOutcome::Complete((key(2, 1).to_wire(), 0))));
    assert_eq!(watermark(&n), 0x2000);
    let first = *caller_table(&n).lookup(key(2, 1), GUARD).unwrap();
    let second = *caller_table(&n).lookup(key(3, 1), GUARD).unwrap();
    assert_eq!(first.as_frame().unwrap().paddr, REGION);
    assert_eq!(second.as_frame().unwrap().paddr, REGION + 0x1000);
    assert!(!second.as_frame().unwrap().is_mapped());
    assert_eq!(
        n.hw,
        vec![
            HwAction::ZeroFrame { paddr: REGION, bytes: 0x1000 },
            HwAction::ZeroFrame { paddr: REGION + 0x1000, bytes: 0x1000 },
        ]
    );
    // A 64 KiB-aligned request would need a 2 MiB frame, which does not fit
    // in the 1 MiB region.
    let r = handle_cap_invoke(&mut n, key(1, 1), 0, &retype_args(ObjectType::FRAME, 21, 1, 6));
    assert_eq!(r, Err(CapError::InsufficientMemory));
    assert_eq!(watermark(&n), 0x2000);
}

#[test]
fn retype_key_table_carves_a_fresh_table() {
    let (mut n, _) = fixture(0, 0);
    let r = handle_cap_invoke(&mut n, key(1, 1), 0, &retype_args(ObjectType::KEY_TABLE, 2, 1, 3));
    assert_eq!(r, Ok(InvokeOutcome::Complete((key(3, 1).to_wire(), 0))));
    let entry = *caller_table(&n).lookup(key(3, 1), GUARD).unwrap();
    assert_eq!(entry.keytable_address(), Ok(REGION));
    assert_eq!(entry.keytable_guard_and_size(), Ok((0, 2)));
    let carved = n.tables.get(REGION).unwrap();
    assert_eq!(carved.capacity(), 4);
    assert_eq!(carved.len(), 0);
    assert_eq!(carved.owner(), DomainId(1));
    assert_eq!(watermark(&n), KeyTable::carve_size(2));
    // The next table lands after the first, on the 32-byte alignment.
    let r = handle_cap_invoke(&mut n, key(1, 1), 0, &retype_args(ObjectType::KEY_TABLE, 1, 1, 4));
    assert_eq!(r, Ok(InvokeOutcome::Complete((key(4, 1).to_wire(), 0))));
    assert!(n.tables.contains(REGION + KeyTable::carve_size(2) as u64));
}

#[test]
fn retype_page_table_carves_a_zeroed_table() {
    let (mut n, _) = fixture(0, 1);
    let r = handle_cap_invoke(&mut n, key(1, 1), 0, &retype_args(ObjectType::PAGE_TABLE, 12, 1, 2));
    assert_eq!(r, Ok(InvokeOutcome::Complete((key(2, 1).to_wire(), 0))));
    assert_eq!(n.phys.read(REGION, 0), Some(0));
    assert_eq!(n.phys.read(REGION, 511), Some(0));
    let id = caller_table(&n).lookup(key(2, 1), GUARD).unwrap().object_id().unwrap();
    let record = n.pools.arch.page_tables.validate(id).unwrap();
    assert_eq!(record.paddr(), REGION);
    assert!(!record.is_installed());
    assert_eq!(watermark(&n), 0x1000);
}

#[test]
fn retype_refusals_change_nothing() {
    let (mut n, _) = fixture(1, 0);
    let snapshot = |n: &Nucleus| (0..16).map(|i| *caller_table(n).entry(i)).collect::<Vec<_>>();
    let before = snapshot(&n);
    let cases = [
        (retype_args(ObjectType::NOTIFICATION, 0, 0, 4), CapError::InvalidOperation),
        (retype_args(ObjectType::NOTIFICATION, 0, 2, 4), CapError::PoolExhausted),
        (retype_args(ObjectType::NOTIFICATION, 1, 1, 4), CapError::InvalidSize(1)),
        (retype_args(ObjectType::FRAME, 13, 1, 4), CapError::InvalidFrameSize(13)),
        (retype_args(ObjectType::FRAME, 12, 1, 1), CapError::SlotOccupied(KeySlot(1))),
        (retype_args(ObjectType::FRAME, 12, 1, 16), CapError::InvalidSlot(KeySlot(16))),
        (retype_args(ObjectType::FRAME, 12, 257, 2), CapError::InsufficientMemory),
        (retype_args(ObjectType::THREAD, 0, 1, 2), CapError::InvalidObjectType(ObjectType(ObjectType::THREAD))),
        (retype_args(ObjectType::KEY_TABLE, 0, 1, 2), CapError::InvalidSize(0)),
    ];
    for (args, expected) in cases {
        assert_eq!(handle_cap_invoke(&mut n, key(1, 1), 0, &args), Err(expected));
        assert_eq!(snapshot(&n), before);
        assert_eq!(n.pools.notifications.len(), 0);
        assert!(n.hw.is_empty());
    }
    let mut wide = retype_args(ObjectType::FRAME, 12, 1, 2);
    wide[5] = 0x100;
    assert_eq!(handle_cap_invoke(&mut n, key(1, 1), 0, &wide), Err(CapError::InvalidOperation));
    assert_eq!(handle_cap_invoke(&mut n, key(1, 1), 1, &retype_args(ObjectType::FRAME, 12, 1, 2)),
        Err(CapError::InvalidOperation));
}

#[test]
fn retype_refuses_device_regions_and_occupied_carves() {
    let (mut n, _) = fixture(0, 0);
    let device = KeyEntry::new_untyped(0x4000_0000, 20, true, Rights::all());
    assert!(n.tables.get_mut(TABLE).unwrap().insert(KeySlot(2), device, GUARD).is_ok());
    assert_eq!(
        handle_cap_invoke(&mut n, key(2, 1), 0, &retype_args(ObjectType::FRAME, 12, 1, 4)),
        Err(CapError::InvalidObjectType(ObjectType(ObjectType::FRAME)))
    );
    n.tables.insert(REGION, KeyTable::initialize(DomainId(9), 1));
    assert_eq!(
        handle_cap_invoke(&mut n, key(1, 1), 0, &retype_args(ObjectType::KEY_TABLE, 1, 1, 4)),
        Err(CapError::InsufficientMemory)
    );
    assert_eq!(watermark(&n), 0);
}

#[test]
fn invoking_an_empty_or_foreign_key_is_refused() {
    let (mut n, _) = fixture(0, 0);
    let args = [0; 6];
    assert_eq!(
        handle_cap_invoke(&mut n, key(7, 1), 0, &args),
        Err(CapError::InvalidKey { key: key(7, 1), reason: InvalidKeyReason::NeverIssued, operand: 0 })
    );
    let foreign = RawKey::from_parts(GUARD + 1, BITS, 1, 1);
    assert_eq!(
        handle_cap_invoke(&mut n, foreign, 0, &args),
        Err(CapError::InvalidKey { key: foreign, reason: InvalidKeyReason::GuardMismatch, operand: 0 })
    );
    n.current_thread = None;
    assert_eq!(handle_cap_invoke(&mut n, key(1, 1), 0, &args), Err(CapError::InvalidDomain));
}

fn install_notification(n: &mut Nucleus, slot: u32) -> ObjectId {
    let id = n.pools.notifications.allocate(Notification::new()).unwrap();
    let entry = KeyEntry::from_id(ObjectType(ObjectType::NOTIFICATION), id, Rights::all(), 0);
    assert!(n.tables.get_mut(TABLE).unwrap().insert(KeySlot(slot), entry, GUARD).is_ok());
    id
}

#[test]
fn a_blocked_wait_parks_the_caller_and_resumes_it_with_the_signal() {
    let (mut n, a) = fixture(1, 0);
    let b = n.pools.threads.allocate(thread_fixture(ExecutionContext::NotStarted { pc: 0x4000, stack_top: 0x9000 })).unwrap();
    assert!(n.scheduler.push(b.index));
    install_notification(&mut n, 3);
    let wait = [u64::MAX, 0, 0, 0, 0, 0];
    let record = match handle_cap_invoke(&mut n, key(3, 1), 1, &wait) {
        Ok(InvokeOutcome::Blocked(record)) => record,
        other => panic!("wait should block: {:?}", other),
    };
    assert_eq!(park_and_switch(&mut n, 0xAAA0, record), Ok(Resume::Start { pc: 0x4000, stack_top: 0x9000 }));
    assert_eq!(n.current_thread, Some(b.index as u32));
    assert_eq!(
        n.pools.threads.validate(a).unwrap().context,
        ExecutionContext::Parked { frame_addr: 0xAAA0, record }
    );
    // The second thread signals: the parked waiter becomes runnable.
    let signal = [0b11, 0, 0, 0, 0, 0];
    assert_eq!(handle_cap_invoke(&mut n, key(3, 1), 0, &signal), Ok(InvokeOutcome::Complete((0, 0))));
    assert_eq!(n.scheduler.len(), 1);
    // When it in turn blocks, the first thread resumes with the delivered bits.
    let other = ObjectId { pool: PoolTag::Pending, index: 31, generation: 1 };
    assert_eq!(
        park_and_switch(&mut n, 0xBBB0, other),
        Ok(Resume::Parked { frame_addr: 0xAAA0, x0: syscall_status::SUCCESS, x1: 0b11, x2: 0 })
    );
    assert_eq!(n.current_thread, Some(a.index as u32));
    assert_eq!(n.pools.threads.validate(a).unwrap().context, ExecutionContext::Running);
    assert_eq!(n.pending.state(record), Err(CapError::InvalidOperation));
    // Nothing is runnable now: the kernel cannot park the last thread.
    assert_eq!(park_and_switch(&mut n, 0xAAA0, record), Err(SwitchFault::NothingRunnable));
}

#[test]
fn a_waiting_record_cannot_be_resumed() {
    let (mut n, a) = fixture(1, 0);
    install_notification(&mut n, 3);
    let wait = [u64::MAX, 0, 0, 0, 0, 0];
    let record = match handle_cap_invoke(&mut n, key(3, 1), 1, &wait) {
        Ok(InvokeOutcome::Blocked(record)) => record,
        other => panic!("wait should block: {:?}", other),
    };
    // The caller itself is (wrongly) queued: its record is still waiting.
    assert!(n.scheduler.push(a.index));
    assert_eq!(park_and_switch(&mut n, 0xAAA0, record), Err(SwitchFault::RecordWaiting));
}

#[test]
fn the_syscall_path_decodes_registers_and_replies() {
    let (mut n, _) = fixture(1, 0);
    install_notification(&mut n, 3);
    let mut gpr = [key(3, 1).to_wire(), 0, 0b101, 0, 0, 0, 0, 0];
    assert_eq!(cap_invoke(&mut n, &gpr), SyscallAction::Reply { x0: syscall_status::SUCCESS, x1: 0, x2: 0 });
    gpr[1] = 2;
    gpr[2] = 0;
    assert_eq!(cap_invoke(&mut n, &gpr), SyscallAction::Reply { x0: syscall_status::SUCCESS, x1: 0b101, x2: 0 });
    gpr[1] = 9;
    let (x0, x1, x2) = CapError::InvalidOperation.code();
    assert_eq!(cap_invoke(&mut n, &gpr), SyscallAction::Reply { x0, x1, x2 });
    gpr[1] = 1;
    gpr[2] = u64::MAX;
    assert!(matches!(cap_invoke(&mut n, &gpr), SyscallAction::Park { .. }));
}

#[test]
fn only_an_aarch64_svc_is_a_capability_invocation() {
    assert!(is_svc64(0x15 << 26));
    assert!(is_svc64((0x15 << 26) | 0x1337));
    assert!(!is_svc64(0x16 << 26));
    assert!(!is_svc64(0x24 << 26));
    assert!(!is_svc64(0));
}

fn block_on_notification(n: &mut Nucleus, notification: ObjectId, waiter: ObjectId) -> ObjectId {
    let obj = n.pools.notifications.get_live_mut(notification.index as usize).expect("notification is live");
    match obj.wait(waiter, &mut n.pending) {
        Ok(WaitOutcome::Blocked(record)) => record,
        _ => panic!("wait should block"),
    }
}

#[test]
fn thread_teardown_cancels_parked_waits_and_queued_wakeups() {
    let mut n = Nucleus::new(pools(2, 1), DcbPages::new());
    let a = n.pools.threads.allocate(thread_fixture(ExecutionContext::Running)).unwrap();
    let b = n.pools.threads.allocate(thread_fixture(ExecutionContext::Running)).unwrap();
    let c = n.pools.threads.allocate(thread_fixture(ExecutionContext::Running)).unwrap();
    let notif = n.pools.notifications.allocate(Notification::new()).unwrap();
    let e = n.pools.event_counts.allocate(EventCount::new()).unwrap();
    let record_c = block_on_notification(&mut n, notif, c);
    let record_a = block_on_notification(&mut n, notif, a);
    let record_b = {
        let ec = n.pools.event_counts.get_live_mut(e.index as usize).expect("event count is live");
        match ec.await_ge(10, b, &mut n.pending) {
            Ok(AwaitOutcome::Blocked(record)) => record,
            _ => panic!("await should block"),
        }
    };
    {
        let obj = n.pools.notifications.get_live_mut(notif.index as usize).unwrap();
        assert_eq!(obj.signal(0b1, &mut n.pending), Ok(Some(record_c)));
    }
    assert!(n.scheduler.push(c.index));
    assert!(n.cancel_thread_pending(a).is_ok());
    assert!(n.pending.state(record_a).is_err());
    assert_eq!(
        n.pending.state(record_c).ok(),
        Some(PendingState::Completed { status: syscall_status::SUCCESS, result0: 0b1, result1: 0 })
    );
    assert_eq!(n.pending.state(record_b).ok(), Some(PendingState::Waiting));
    assert_eq!(n.scheduler.len(), 1);
    {
        let obj = n.pools.notifications.get_live_mut(notif.index as usize).unwrap();
        assert_eq!(obj.signal(0b10, &mut n.pending), Ok(None));
        assert_eq!(obj.pending_bits(), 0b10);
    }
    assert!(n.cancel_thread_pending(c).is_ok());
    assert!(n.pending.state(record_c).is_err());
    assert!(n.scheduler.is_empty());
    assert!(n.cancel_thread_pending(b).is_ok());
    assert!(n.pending.state(record_b).is_err());
    assert!(n.pending.is_empty());
    let ec = n.pools.event_counts.get_live_mut(e.index as usize).unwrap();
    match ec.advance(5, &mut n.pending) {
        Ok(AdvanceOutcome::Advanced { new_value, woken }) => {
            assert_eq!(woken.iter().len(), 0);
            assert_eq!(new_value, 5);
        },
        _ => panic!("advance after teardown failed"),
    }
}

#[test]
fn thread_teardown_with_nothing_pending_is_a_no_op() {
    let mut n = Nucleus::new(pools(2, 1), DcbPages::new());
    let a = n.pools.threads.allocate(thread_fixture(ExecutionContext::Running)).unwrap();
    assert!(n.cancel_thread_pending(a).is_ok());
    assert!(n.pending.is_empty());
    assert!(n.scheduler.is_empty());
}

#[test]
fn thread_teardown_rejects_a_stale_thread_identity() {
    let mut n = Nucleus::new(pools(2, 1), DcbPages::new());
    let a = n.pools.threads.allocate(thread_fixture(ExecutionContext::Running)).unwrap();
    assert!(n.cancel_thread_pending(a).is_ok());
    assert!(n.pools.threads.deallocate(a).is_ok());
    assert!(n.cancel_thread_pending(a).is_err());
}

#[test]
fn a_signal_after_a_waiter_is_retired_completes_the_next_waiter() {
    let (mut n, a) = fixture(1, 0);
    let b = n.pools.threads.allocate(thread_fixture(ExecutionContext::Running)).unwrap();
    let c = n.pools.threads.allocate(thread_fixture(ExecutionContext::Running)).unwrap();
    install_notification(&mut n, 3);
    let retire_a = KeyEntry::from_id(ObjectType(ObjectType::THREAD), a, Rights::all(), 0);
    assert!(n.tables.get_mut(TABLE).unwrap().insert(KeySlot(5), retire_a, GUARD).is_ok());
    let wait = [u64::MAX, 0, 0, 0, 0, 0];
    let record_a = match handle_cap_invoke(&mut n, key(3, 1), 1, &wait) {
        Ok(InvokeOutcome::Blocked(record)) => record,
        other => panic!("wait should block: {:?}", other),
    };
    n.current_thread = Some(b.index as u32);
    let record_b = match handle_cap_invoke(&mut n, key(3, 1), 1, &wait) {
        Ok(InvokeOutcome::Blocked(record)) => record,
        other => panic!("wait should block: {:?}", other),
    };
    n.current_thread = Some(c.index as u32);
    assert_eq!(handle_cap_invoke(&mut n, key(5, 1), 4, &[0; 6]), Ok(InvokeOutcome::Complete((0, 0))));
    assert!(n.pending.state(record_a).is_err());
    assert_eq!(n.pending.state(record_b), Ok(PendingState::Waiting));
    let signal = [0b110, 0, 0, 0, 0, 0];
    assert_eq!(handle_cap_invoke(&mut n, key(3, 1), 0, &signal), Ok(InvokeOutcome::Complete((0, 0))));
    assert_eq!(
        n.pending.state(record_b),
        Ok(PendingState::Completed { status: syscall_status::SUCCESS, result0: 0b110, result1: 0 })
    );
    assert_eq!(n.scheduler.len(), 1);
    assert_eq!(handle_cap_invoke(&mut n, key(3, 1), 0, &[0b1, 0, 0, 0, 0, 0]), Ok(InvokeOutcome::Complete((0, 0))));
    assert_eq!(handle_cap_invoke(&mut n, key(3, 1), 2, &[0; 6]), Ok(InvokeOutcome::Complete((0b1, 0))));
}

#[test]
fn the_wakes_an_invocation_makes_are_counted_before_it_runs() {
    let (mut n, a) = fixture(1, 0);
    let b = n.pools.threads.allocate(thread_fixture(ExecutionContext::Running)).unwrap();
    install_notification(&mut n, 3);
    let e = n.pools.event_counts.allocate(EventCount::new()).unwrap();
    let counter = KeyEntry::from_id(ObjectType(ObjectType::EVENT_COUNT), e, Rights::all(), 0);
    assert!(n.tables.get_mut(TABLE).unwrap().insert(KeySlot(4), counter, GUARD).is_ok());
    let signal = [0b1, 0, 0, 0, 0, 0];
    let poll = [0; 6];
    assert_eq!(invoke_wake_count(&n, key(3, 1), 0, &signal), 0);
    // Thread a waits on the notification; threads a and b await the counter.
    let wait = [u64::MAX, 0, 0, 0, 0, 0];
    assert!(matches!(handle_cap_invoke(&mut n, key(3, 1), 1, &wait), Ok(InvokeOutcome::Blocked(_))));
    assert!(matches!(handle_cap_invoke(&mut n, key(4, 1), 1, &[3, u64::MAX, 0, 0, 0, 0]), Ok(InvokeOutcome::Blocked(_))));
    n.current_thread = Some(b.index as u32);
    assert!(matches!(handle_cap_invoke(&mut n, key(4, 1), 1, &[5, u64::MAX, 0, 0, 0, 0]), Ok(InvokeOutcome::Blocked(_))));
    assert_eq!(invoke_wake_count(&n, key(3, 1), 0, &signal), 1);
    assert_eq!(invoke_wake_count(&n, key(3, 1), 2, &poll), 0);
    assert_eq!(invoke_wake_count(&n, key(4, 1), 0, &[2, 0, 0, 0, 0, 0]), 0);
    assert_eq!(invoke_wake_count(&n, key(4, 1), 0, &[3, 0, 0, 0, 0, 0]), 1);
    assert_eq!(invoke_wake_count(&n, key(4, 1), 0, &[9, 0, 0, 0, 0, 0]), 2);
    assert_eq!(invoke_wake_count(&n, key(4, 1), 0, &[0, 0, 0, 0, 0, 0]), 0);
    assert_eq!(invoke_wake_count(&n, key(4, 1), 0, &[u64::MAX, 0, 0, 0, 0, 0]), 2);
    assert_eq!(invoke_wake_count(&n, key(9, 1), 0, &signal), 0);
    // A full runnable queue has no room for a wake, but a poll still fits.
    let mut filler: u16 = 0;
    while n.scheduler.len() < Scheduler::CAPACITY {
        assert!(n.scheduler.push(filler));
        filler = filler.wrapping_add(1);
    }
    assert!(!wakes_fit(&n, key(3, 1), 0, &signal));
    assert!(wakes_fit(&n, key(3, 1), 2, &poll));
    let gpr = [key(3, 1).to_wire(), 0, 0b1, 0, 0, 0, 0, 0];
    assert!(!syscall_wakes_fit(&n, &gpr));
    assert!(n.scheduler.pop().is_some());
    assert!(wakes_fit(&n, key(3, 1), 0, &signal));
    assert!(!wakes_fit(&n, key(4, 1), 0, &[9, 0, 0, 0, 0, 0]));
    assert!(n.pools.threads.validate(a).is_ok());
}
