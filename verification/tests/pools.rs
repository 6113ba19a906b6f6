use nucleus::access::{ObjectId, PoolTag};
use nucleus::arch::AArch64PageTable;
use nucleus::completion::{PendingKind, PendingPool, PendingState, WaitQueue};
use nucleus::error::CapError;
use nucleus::object_pool::ObjectPool;
use nucleus::sched::Scheduler;

fn pool(capacity: usize) -> ObjectPool<AArch64PageTable> {
    ObjectPool::new(PoolTag::PageTable, capacity)
}

fn take(pool: &mut ObjectPool<AArch64PageTable>, value: u64) -> ObjectId {
    match pool.allocate(AArch64PageTable::new(value)) {
        Some(id) => id,
        None => panic!("allocation failed"),
    }
}

fn dealloc(pool: &mut ObjectPool<AArch64PageTable>, id: ObjectId) {
    if pool.deallocate(id).is_err() {
        panic!("deallocation failed");
    }
}

#[test]
fn allocate_starts_at_generation_one_and_validates() {
    let mut pool = pool(2);
    let id = take(&mut pool, 7);
    assert_eq!(id.pool, PoolTag::PageTable);
    assert_eq!(id.index, 0);
    assert_eq!(id.generation, 1);
    assert_eq!(pool.validate(id).map(|t| t.paddr()), Ok(7));
    assert_eq!(pool.len(), 1);
    assert!(!pool.is_empty());
    dealloc(&mut pool, id);
    assert!(pool.is_empty());
}

#[test]
fn stale_identity_is_rejected_after_reuse() {
    let mut pool = pool(1);
    let first = take(&mut pool, 1);
    dealloc(&mut pool, first);
    assert!(pool.validate(first).is_err());
    let second = take(&mut pool, 2);
    assert_eq!(second.index, first.index);
    assert_eq!(second.generation, 2);
    assert!(pool.validate(first).is_err());
    assert!(pool.validate(second).is_ok());
    dealloc(&mut pool, second);
}

#[test]
fn wrong_pool_tag_and_out_of_bounds_are_rejected() {
    let mut pool = pool(1);
    let id = take(&mut pool, 1);
    let mut wrong_pool = id;
    wrong_pool.pool = PoolTag::KeyTable;
    assert_eq!(pool.validate(wrong_pool).err(), Some(CapError::InvalidOperation));
    let mut out_of_bounds = id;
    out_of_bounds.index = 5;
    assert_eq!(pool.validate(out_of_bounds).err(), Some(CapError::InvalidOperation));
    dealloc(&mut pool, id);
}

#[test]
fn pool_exhaustion_rejects_allocation() {
    let mut pool = pool(1);
    let id = take(&mut pool, 1);
    assert!(pool.allocate(AArch64PageTable::new(2)).is_none());
    dealloc(&mut pool, id);
    assert!(pool.allocate(AArch64PageTable::new(3)).is_some());
}

#[test]
fn next_fit_allocates_forward_from_the_cursor() {
    let mut pool = pool(2);
    let first = take(&mut pool, 1);
    assert_eq!(first.index, 0);
    dealloc(&mut pool, first);
    let second = take(&mut pool, 2);
    assert_eq!(second.index, 1);
    dealloc(&mut pool, second);
    let third = take(&mut pool, 3);
    assert_eq!(third.index, 0);
    dealloc(&mut pool, third);
}

#[test]
fn pair_resolution_rejects_same_slot_alias() {
    let mut pool = pool(2);
    let first = take(&mut pool, 1);
    let second = take(&mut pool, 2);
    assert!(pool.validate_pair(first, first).is_err());
    assert!(pool.validate_pair(first, second).is_ok());
    dealloc(&mut pool, first);
    assert!(pool.validate_pair(first, second).is_err());
    dealloc(&mut pool, second);
}

#[test]
fn an_allocation_run_takes_distinct_slots_or_nothing() {
    let mut pool = pool(3);
    let kept = take(&mut pool, 9);
    let ids = pool
        .allocate_run(vec![AArch64PageTable::new(10), AArch64PageTable::new(11)])
        .unwrap_or_else(|_| panic!("run failed"));
    assert_eq!(ids.len(), 2);
    assert_ne!(ids[0].index, ids[1].index);
    assert_eq!(pool.validate(ids[1]).map(|t| t.paddr()), Ok(11));
    assert_eq!(pool.len(), 3);
    for id in ids {
        dealloc(&mut pool, id);
    }
    // Two free slots cannot take three objects: the run is refused and the
    // pool keeps exactly its previous object.
    let refused = pool.allocate_run(vec![
        AArch64PageTable::new(20),
        AArch64PageTable::new(21),
        AArch64PageTable::new(22),
    ]);
    assert_eq!(refused.err(), Some(CapError::PoolExhausted));
    assert_eq!(pool.len(), 1);
    assert_eq!(pool.validate(kept).map(|t| t.paddr()), Ok(9));
}

#[test]
fn scheduler_is_fifo_and_bounded() {
    let mut scheduler = Scheduler::new();
    assert!(scheduler.is_empty());
    assert_eq!(scheduler.pop(), None);
    assert!(scheduler.push(3));
    assert!(scheduler.push(7));
    assert_eq!(scheduler.len(), 2);
    assert_eq!(scheduler.pop(), Some(3));
    assert_eq!(scheduler.pop(), Some(7));
    assert!(scheduler.is_empty());
    for i in 0..Scheduler::CAPACITY {
        assert!(scheduler.push(i as u16));
    }
    assert!(!scheduler.push(0));
    assert_eq!(scheduler.len(), Scheduler::CAPACITY);
}

#[test]
fn scheduler_ring_wraps_around() {
    let mut scheduler = Scheduler::new();
    for round in 0..2_u16 {
        for i in 0..16_u16 {
            assert!(scheduler.push(round * 16 + i));
        }
        for i in 0..16_u16 {
            assert_eq!(scheduler.pop(), Some(round * 16 + i));
        }
    }
    assert!(scheduler.is_empty());
}

#[test]
fn remove_purges_a_domain_and_preserves_fifo_order() {
    let mut scheduler = Scheduler::new();
    assert!(scheduler.push(3));
    assert!(scheduler.push(5));
    assert!(scheduler.push(7));
    assert!(scheduler.remove(5));
    assert_eq!(scheduler.len(), 2);
    assert_eq!(scheduler.pop(), Some(3));
    assert_eq!(scheduler.pop(), Some(7));
    assert_eq!(scheduler.pop(), None);
    assert!(!scheduler.remove(5));
}

#[test]
fn remove_purges_the_front_and_back_entries_too() {
    let mut scheduler = Scheduler::new();
    assert!(scheduler.push(1));
    assert!(scheduler.push(2));
    assert!(scheduler.push(3));
    assert!(scheduler.remove(1));
    assert!(scheduler.remove(3));
    assert_eq!(scheduler.pop(), Some(2));
    assert!(scheduler.is_empty());
}

fn waiter(index: u16) -> ObjectId {
    ObjectId { pool: PoolTag::Thread, index, generation: 1 }
}

fn block(pool: &mut PendingPool, index: u16) -> ObjectId {
    match pool.block(waiter(index), PendingKind::NotificationWait) {
        Ok(id) => id,
        Err(_) => panic!("block failed"),
    }
}

#[test]
fn block_registers_waiting_record() {
    let mut pool = PendingPool::new();
    let id = block(&mut pool, 0);
    assert_eq!(id.pool, PoolTag::Pending);
    assert_eq!(id.generation, 1);
    assert_eq!(pool.state(id).ok(), Some(PendingState::Waiting));
    assert_eq!(pool.waiter(id).ok(), Some(waiter(0)));
    assert_eq!(pool.kind(id).ok(), Some(PendingKind::NotificationWait));
    assert_eq!(pool.len(), 1);
}

#[test]
fn exactly_one_terminal_transition_wins() {
    let mut pool = PendingPool::new();
    let id = block(&mut pool, 0);
    assert!(pool.complete(id, 0xBEEF, 0).is_ok());
    let done = Some(PendingState::Completed { status: 0, result0: 0xBEEF, result1: 0 });
    assert_eq!(pool.state(id).ok(), done);
    assert_eq!(pool.complete(id, 1, 0), Err(CapError::InvalidOperation));
    assert_eq!(pool.cancel(id), Err(CapError::InvalidOperation));
    assert_eq!(pool.state(id).ok(), done);
}

#[test]
fn cancellation_is_terminal_too() {
    let mut pool = PendingPool::new();
    let id = block(&mut pool, 1);
    assert!(pool.cancel(id).is_ok());
    assert_eq!(pool.state(id).ok(), Some(PendingState::Cancelled));
    assert_eq!(pool.complete(id, 0, 0), Err(CapError::InvalidOperation));
}

#[test]
fn release_requires_terminal_and_rejects_stale_identities() {
    let mut pool = PendingPool::new();
    let id = block(&mut pool, 0);
    assert_eq!(pool.release(id), Err(CapError::InvalidOperation));
    assert!(pool.complete(id, 7, 8).is_ok());
    assert!(pool.release(id).is_ok());
    assert_eq!(pool.len(), 0);
    assert_eq!(pool.state(id), Err(CapError::InvalidOperation));
    for i in 1..PendingPool::CAPACITY {
        block(&mut pool, i as u16);
    }
    let next = block(&mut pool, 2);
    assert_eq!(next.index, id.index);
    assert_eq!(next.generation, id.generation + 1);
    assert_eq!(pool.state(id), Err(CapError::InvalidOperation));
    assert_eq!(pool.state(next).ok(), Some(PendingState::Waiting));
}

#[test]
fn pool_exhaustion_rejects_new_records() {
    let mut pool = PendingPool::new();
    for i in 0..PendingPool::CAPACITY {
        block(&mut pool, i as u16);
    }
    assert_eq!(pool.len(), PendingPool::CAPACITY);
    assert_eq!(pool.block(waiter(255), PendingKind::NotificationWait), Err(CapError::PoolExhausted));
}

fn record(index: u16) -> ObjectId {
    ObjectId { pool: PoolTag::Pending, index, generation: 1 }
}

#[test]
fn wait_queue_is_fifo_and_bounded() {
    let mut queue = WaitQueue::new();
    assert!(queue.push(record(0)).is_ok());
    assert!(queue.push(record(1)).is_ok());
    assert_eq!(queue.len(), 2);
    for i in 2..WaitQueue::CAPACITY {
        assert!(queue.push(record(i as u16)).is_ok());
    }
    assert!(queue.is_full());
    assert_eq!(queue.push(record(255)), Err(CapError::PoolExhausted));
    assert_eq!(queue.pop_front(), Some(record(0)));
    assert_eq!(queue.pop_front(), Some(record(1)));
}

#[test]
fn wait_queue_remove_preserves_order() {
    let mut queue = WaitQueue::new();
    for i in 0..3 {
        assert!(queue.push(record(i)).is_ok());
    }
    assert!(queue.remove(record(1)));
    assert!(!queue.remove(record(1)));
    assert_eq!(queue.pop_front(), Some(record(0)));
    assert_eq!(queue.pop_front(), Some(record(2)));
    assert_eq!(queue.pop_front(), None);
}
