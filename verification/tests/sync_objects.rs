use nucleus::access::{ObjectId, PoolTag};
use nucleus::completion::{PendingPool, PendingState, WaitQueue};
use nucleus::error::CapError;
use nucleus::event_count::{AdvanceOutcome, AwaitOutcome, AwaitQueue, EventCount, WokenRecords};
use nucleus::notification::{Notification, WaitOutcome};
use nucleus::syscall_status;

fn waiter(index: u16) -> ObjectId {
    ObjectId { pool: PoolTag::Thread, index, generation: 1 }
}

fn completed(result0: u64) -> Option<PendingState> {
    Some(PendingState::Completed { status: syscall_status::SUCCESS, result0, result1: 0 })
}

fn block_waiter(notification: &mut Notification, pending: &mut PendingPool, index: u16) -> ObjectId {
    match notification.wait(waiter(index), pending) {
        Ok(WaitOutcome::Blocked(record)) => record,
        _ => panic!("wait should block"),
    }
}

#[test]
fn signal_without_waiter_coalesces_bits() {
    let mut pending = PendingPool::new();
    let mut notification = Notification::new();
    assert_eq!(notification.signal(0b1, &mut pending), Ok(None));
    assert_eq!(notification.signal(0b10, &mut pending), Ok(None));
    assert_eq!(notification.signal(0b1, &mut pending), Ok(None));
    assert_eq!(notification.pending_bits(), 0b11);
    assert!(pending.is_empty());
}

#[test]
fn wait_consumes_pending_bits_immediately() {
    let mut pending = PendingPool::new();
    let mut notification = Notification::new();
    assert_eq!(notification.signal(0b101, &mut pending), Ok(None));
    assert_eq!(notification.wait(waiter(0), &mut pending).ok(), Some(WaitOutcome::Ready(0b101)));
    assert_eq!(notification.pending_bits(), 0);
    assert!(pending.is_empty());
}

#[test]
fn wait_without_bits_blocks_and_signal_delivers() {
    let mut pending = PendingPool::new();
    let mut notification = Notification::new();
    let record = block_waiter(&mut notification, &mut pending, 3);
    assert_eq!(pending.state(record).ok(), Some(PendingState::Waiting));
    assert_eq!(pending.waiter(record).ok(), Some(waiter(3)));
    assert_eq!(notification.signal(0b110, &mut pending), Ok(Some(record)));
    assert_eq!(pending.state(record).ok(), completed(0b110));
    assert_eq!(notification.pending_bits(), 0);
}

#[test]
fn one_consumer_wakes_one_waiter_per_signal() {
    let mut pending = PendingPool::new();
    let mut notification = Notification::new();
    let first = block_waiter(&mut notification, &mut pending, 0);
    let second = block_waiter(&mut notification, &mut pending, 1);
    assert_eq!(notification.signal(0b1, &mut pending), Ok(Some(first)));
    assert_eq!(pending.state(second).ok(), Some(PendingState::Waiting));
    assert_eq!(notification.signal(0b10, &mut pending), Ok(Some(second)));
    assert_eq!(pending.state(second).ok(), completed(0b10));
}

#[test]
fn poll_consumes_or_reports_no_pending_bits() {
    let mut pending = PendingPool::new();
    let mut notification = Notification::new();
    assert_eq!(notification.poll(), 0);
    assert_eq!(notification.signal(0b1, &mut pending), Ok(None));
    assert_eq!(notification.poll(), 0b1);
    assert_eq!(notification.poll(), 0);
}

#[test]
fn notification_full_queue_rejects_before_admission_without_leaking_records() {
    let mut pending = PendingPool::new();
    let mut notification = Notification::new();
    for i in 0..WaitQueue::CAPACITY {
        block_waiter(&mut notification, &mut pending, i as u16);
    }
    let before = pending.len();
    assert_eq!(notification.wait(waiter(255), &mut pending), Err(CapError::PoolExhausted));
    assert_eq!(pending.len(), before);
}

#[test]
fn notification_teardown_cancels_queued_waiters() {
    let mut pending = PendingPool::new();
    let mut notification = Notification::new();
    let first = block_waiter(&mut notification, &mut pending, 0);
    let second = block_waiter(&mut notification, &mut pending, 1);
    assert!(notification.cancel_waiters(&mut pending).is_ok());
    assert_eq!(pending.state(first).ok(), Some(PendingState::Cancelled));
    assert_eq!(pending.state(second).ok(), Some(PendingState::Cancelled));
    assert_eq!(notification.signal(0b1, &mut pending), Ok(None));
    assert_eq!(notification.pending_bits(), 0b1);
}

#[test]
fn notification_domain_teardown_unqueues_only_the_torn_down_waiter() {
    let mut pending = PendingPool::new();
    let mut notification = Notification::new();
    let gone = block_waiter(&mut notification, &mut pending, 0);
    let survivor = block_waiter(&mut notification, &mut pending, 1);
    assert_eq!(notification.remove_waiter(waiter(0), &pending), 1);
    assert_eq!(pending.teardown_waiter(waiter(0)).ok(), Some(1));
    assert_eq!(pending.state(gone), Err(CapError::InvalidOperation));
    assert_eq!(notification.signal(0b110, &mut pending), Ok(Some(survivor)));
    assert_eq!(pending.state(survivor).ok(), completed(0b110));
    assert_eq!(notification.remove_waiter(waiter(0), &pending), 0);
}

fn await_blocks(event_count: &mut EventCount, pending: &mut PendingPool, index: u16, target: u64) -> ObjectId {
    match event_count.await_ge(target, waiter(index), pending) {
        Ok(AwaitOutcome::Blocked(record)) => record,
        _ => panic!("await should block"),
    }
}

fn woken(outcome: &AdvanceOutcome) -> Vec<ObjectId> {
    match outcome {
        AdvanceOutcome::Advanced { woken, .. } | AdvanceOutcome::Overflow { woken } => woken.iter(),
    }
}

fn advance(event_count: &mut EventCount, pending: &mut PendingPool, delta: u64) -> AdvanceOutcome {
    event_count.advance(delta, pending).unwrap_or_else(|_| panic!("advance failed"))
}

#[test]
fn advance_updates_value_and_wakes_no_one_when_empty() {
    let mut pending = PendingPool::new();
    let mut event_count = EventCount::new();
    let outcome = advance(&mut event_count, &mut pending, 5);
    assert!(matches!(outcome, AdvanceOutcome::Advanced { new_value: 5, .. }));
    assert_eq!(woken(&outcome), vec![]);
    assert_eq!(event_count.read(), 5);
    assert!(pending.is_empty());
}

#[test]
fn advance_zero_is_invalid_and_leaves_the_counter_unchanged() {
    let mut pending = PendingPool::new();
    let mut event_count = EventCount::new();
    assert!(event_count.advance(7, &mut pending).is_ok());
    assert_eq!(event_count.advance(0, &mut pending).err(), Some(CapError::InvalidOperation));
    assert_eq!(event_count.read(), 7);
}

#[test]
fn await_target_zero_is_trivially_satisfied() {
    let mut pending = PendingPool::new();
    let mut event_count = EventCount::new();
    assert_eq!(event_count.await_ge(0, waiter(0), &mut pending).ok(), Some(AwaitOutcome::Ready(0)));
    assert!(pending.is_empty());
}

#[test]
fn await_already_satisfied_returns_the_current_value() {
    let mut pending = PendingPool::new();
    let mut event_count = EventCount::new();
    assert!(event_count.advance(12, &mut pending).is_ok());
    assert_eq!(event_count.await_ge(10, waiter(0), &mut pending).ok(), Some(AwaitOutcome::Ready(12)));
    assert_eq!(event_count.read(), 12);
    assert!(pending.is_empty());
}

#[test]
fn await_blocks_and_satisfied_advance_wakes_with_the_new_value() {
    let mut pending = PendingPool::new();
    let mut event_count = EventCount::new();
    let record = await_blocks(&mut event_count, &mut pending, 3, 10);
    assert_eq!(pending.state(record).ok(), Some(PendingState::Waiting));
    let outcome = advance(&mut event_count, &mut pending, 10);
    assert_eq!(woken(&outcome), vec![record]);
    assert_eq!(pending.state(record).ok(), completed(10));
}

#[test]
fn advance_below_the_target_wakes_no_one() {
    let mut pending = PendingPool::new();
    let mut event_count = EventCount::new();
    let record = await_blocks(&mut event_count, &mut pending, 0, 10);
    let outcome = advance(&mut event_count, &mut pending, 5);
    assert_eq!(woken(&outcome), vec![]);
    assert_eq!(pending.state(record).ok(), Some(PendingState::Waiting));
    let outcome = advance(&mut event_count, &mut pending, 5);
    assert_eq!(woken(&outcome), vec![record]);
    assert_eq!(pending.state(record).ok(), completed(10));
}

#[test]
fn advance_wakes_every_satisfied_waiter_in_queue_order() {
    let mut pending = PendingPool::new();
    let mut event_count = EventCount::new();
    let first = await_blocks(&mut event_count, &mut pending, 0, 5);
    let second = await_blocks(&mut event_count, &mut pending, 1, 10);
    let third = await_blocks(&mut event_count, &mut pending, 2, 20);
    let outcome = advance(&mut event_count, &mut pending, 10);
    assert_eq!(woken(&outcome), vec![first, second]);
    for record in [first, second] {
        assert_eq!(pending.state(record).ok(), completed(10));
    }
    assert_eq!(pending.state(third).ok(), Some(PendingState::Waiting));
    let outcome = advance(&mut event_count, &mut pending, 10);
    assert_eq!(woken(&outcome), vec![third]);
}

#[test]
fn overflow_rejects_leaves_the_counter_and_error_wakes_all_waiters() {
    let mut pending = PendingPool::new();
    let mut event_count = EventCount::new();
    assert!(event_count.advance(3, &mut pending).is_ok());
    let first = await_blocks(&mut event_count, &mut pending, 0, 10);
    let second = await_blocks(&mut event_count, &mut pending, 1, 20);
    let outcome = advance(&mut event_count, &mut pending, u64::MAX);
    assert!(matches!(outcome, AdvanceOutcome::Overflow { .. }));
    assert_eq!(woken(&outcome), vec![first, second]);
    assert_eq!(event_count.read(), 3);
    for record in [first, second] {
        assert_eq!(
            pending.state(record).ok(),
            Some(PendingState::Completed { status: syscall_status::COUNTER_OVERFLOW, result0: 0, result1: 0 })
        );
    }
    let record = await_blocks(&mut event_count, &mut pending, 0, 13);
    let outcome = advance(&mut event_count, &mut pending, 10);
    assert_eq!(woken(&outcome), vec![record]);
    assert_eq!(event_count.read(), 13);
}

#[test]
fn event_count_full_queue_rejects_before_admission_without_leaking_records() {
    let mut pending = PendingPool::new();
    let mut event_count = EventCount::new();
    for i in 0..AwaitQueue::CAPACITY {
        await_blocks(&mut event_count, &mut pending, i as u16, 100);
    }
    let before = pending.len();
    assert_eq!(event_count.await_ge(100, waiter(255), &mut pending), Err(CapError::PoolExhausted));
    assert_eq!(pending.len(), before);
}

#[test]
fn event_count_teardown_cancels_queued_waiters() {
    let mut pending = PendingPool::new();
    let mut event_count = EventCount::new();
    let first = await_blocks(&mut event_count, &mut pending, 0, 10);
    let second = await_blocks(&mut event_count, &mut pending, 1, 20);
    assert!(event_count.cancel_waiters(&mut pending).is_ok());
    assert_eq!(pending.state(first).ok(), Some(PendingState::Cancelled));
    assert_eq!(pending.state(second).ok(), Some(PendingState::Cancelled));
    let outcome = advance(&mut event_count, &mut pending, 1);
    assert_eq!(woken(&outcome), vec![]);
    assert_eq!(event_count.read(), 1);
}

#[test]
fn event_count_domain_teardown_unqueues_only_the_torn_down_waiter() {
    let mut pending = PendingPool::new();
    let mut event_count = EventCount::new();
    let gone = await_blocks(&mut event_count, &mut pending, 0, 5);
    let survivor = await_blocks(&mut event_count, &mut pending, 1, 10);
    assert_eq!(event_count.remove_waiter(waiter(0), &pending), 1);
    assert_eq!(pending.teardown_waiter(waiter(0)).ok(), Some(1));
    assert_eq!(pending.state(gone), Err(CapError::InvalidOperation));
    let outcome = advance(&mut event_count, &mut pending, 10);
    assert_eq!(woken(&outcome), vec![survivor]);
    assert_eq!(pending.state(survivor).ok(), completed(10));
    assert_eq!(event_count.remove_waiter(waiter(0), &pending), 0);
}

#[test]
fn woken_records_iterate_in_push_order() {
    let mut woken = WokenRecords::empty();
    let first = ObjectId { pool: PoolTag::Pending, index: 1, generation: 1 };
    let second = ObjectId { pool: PoolTag::Pending, index: 2, generation: 1 };
    woken.push(first);
    woken.push(second);
    assert_eq!(woken.iter(), vec![first, second]);
}
