use nucleus::access::PoolTag;
use nucleus::domain::{BlockReason, DcbError, DcbPage, DcbPages, DomainState};
use nucleus::key::{DomainId, KeySlot};
use nucleus::nucleus::{ArchPools, DeactivateReason, FaultType, Nucleus, NucleusPools};
use nucleus::object_pool::ObjectPool;

fn pages_with(n: usize) -> DcbPages {
    let mut pages = DcbPages::new();
    for i in 0..n {
        assert_eq!(pages.add_page(DcbPage::new(), 0x4000_0000 + (i as u64) * 0x1000), Ok(i));
    }
    pages
}

#[test]
fn domain_identities_are_allocated_lowest_first_and_released() {
    let mut pages = DcbPages::new();
    assert_eq!(pages.allocate_domain(DomainId(0)), Err(DcbError::NoFreeDomains));
    pages = pages_with(1);
    assert_eq!(pages.allocate_domain(DomainId(7)), Ok(DomainId(0)));
    assert_eq!(pages.allocate_domain(DomainId(7)), Ok(DomainId(1)));
    assert_eq!(pages.allocate_domain(DomainId(7)), Ok(DomainId(2)));
    let dcb = pages.get(DomainId(1)).unwrap();
    assert_eq!(dcb.id, DomainId(1));
    assert_eq!(dcb.scheduler_id, DomainId(7));
    assert_eq!(dcb.state, DomainState::Inactive.code());
    assert_eq!(pages.release_domain(DomainId(1)), Ok(()));
    assert_eq!(pages.release_domain(DomainId(1)), Err(DcbError::NotAllocated));
    assert_eq!(pages.iter_allocated(), vec![DomainId(0), DomainId(2)]);
    assert_eq!(pages.num_allocated(), 2);
    assert_eq!(pages.allocate_domain(DomainId(9)), Ok(DomainId(1)));
    for _ in 3..32 {
        assert!(pages.allocate_domain(DomainId(9)).is_ok());
    }
    assert_eq!(pages.allocate_domain(DomainId(9)), Err(DcbError::NoFreeDomains));
    assert_eq!(pages.add_page(DcbPage::new(), 0x5000_0000), Ok(1));
    assert_eq!(pages.allocate_domain(DomainId(9)), Ok(DomainId(32)));
}

#[test]
fn control_blocks_live_at_fixed_user_addresses() {
    let pages = pages_with(2);
    assert_eq!(pages.user_addr(DomainId(0)), DcbPages::USER_BASE);
    assert_eq!(pages.user_addr(DomainId(33)), DcbPages::USER_BASE + 33 * 128);
    assert_eq!(pages.page_phys_addr(1), Some(0x4000_1000));
    assert_eq!(pages.page_phys_addr(2), None);
    assert!(pages.get(DomainId(64)).is_none());
}

fn nucleus_with_domain() -> (Nucleus, DomainId) {
    let pools = NucleusPools {
        threads: ObjectPool::new(PoolTag::Thread, 1),
        notifications: ObjectPool::new(PoolTag::Notification, 1),
        event_counts: ObjectPool::new(PoolTag::EventCount, 1),
        arch: ArchPools::new(
            ObjectPool::new(PoolTag::PageTable, 1),
            ObjectPool::new(PoolTag::AddressSpace, 1),
            ObjectPool::new(PoolTag::ASIDPool, 1),
        ),
    };
    let mut pages = pages_with(1);
    let id = pages.allocate_domain(DomainId(0)).unwrap();
    (Nucleus::new(pools, pages), id)
}

#[test]
fn activation_and_deactivation_record_the_reason() {
    let (mut n, id) = nucleus_with_domain();
    n.activate_thread(id, 5_000);
    let dcb = *n.dcb_pages.get(id).unwrap();
    assert_eq!(dcb.state, DomainState::Running.code());
    assert_eq!(dcb.time_remaining_ns, 5_000);
    assert_eq!(dcb.activation_count, 1);
    n.deactivate_thread(id, DeactivateReason::Blocked { reason: BlockReason::Notification, slot: KeySlot(3) });
    let dcb = *n.dcb_pages.get(id).unwrap();
    assert_eq!(dcb.state, DomainState::Blocked.code());
    assert_eq!(dcb.block_reason, BlockReason::Notification.code());
    assert_eq!(dcb.blocked_on_slot, 3);
    // A signal on a watched slot marks it pending and unblocks the domain.
    n.signal_notification(id, KeySlot(3), 0b1);
    let dcb = *n.dcb_pages.get(id).unwrap();
    assert_eq!(dcb.pending_notifications, 1 << 3);
    assert_eq!(dcb.state, DomainState::Runnable.code());
    n.deactivate_thread(id, DeactivateReason::Faulted {
        fault_type: FaultType::PageFault,
        code: 7,
        addr: 0xdead_0000,
        slot: KeySlot(2),
    });
    let dcb = *n.dcb_pages.get(id).unwrap();
    assert_eq!(dcb.state, DomainState::Faulted.code());
    assert_eq!(dcb.fault_type, FaultType::PageFault.code());
    assert_eq!(dcb.fault_code, 7);
    assert_eq!(dcb.fault_addr, 0xdead_0000);
    assert_eq!(dcb.fault_slot, 2);
    n.deactivate_thread(id, DeactivateReason::Yielded);
    assert_eq!(n.dcb_pages.get(id).unwrap().state, DomainState::Runnable.code());
}
