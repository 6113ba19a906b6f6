//! The nucleus state: every object pool, the carved capability tables and
//! translation tables, the blocked-invocation records, the runnable queue
//! and the control-block pages, plus the kernel-wide operations over them.

use vstd::prelude::*;
use crate::access::{ObjectId, PoolTag};
use crate::arch::{AArch64ASIDPool, AArch64AddressSpace, AArch64PageTable};
use crate::completion::{keeps_record, record_of, PendingPool};
use crate::domain::{block_code, state_code, BlockReason, DcbPages, DomainControlBlock, DomainState};
use crate::error::CapError;
use crate::event_count::EventCount;
use crate::key::{DomainId, KeySlot, RawKey};
use crate::key_table::KeyTable;
use crate::notification::Notification;
use crate::object_pool::{ObjectPool, SlotMeta, SlotState, MAX_POOL_SLOTS};
use crate::ring::ring_index;
use crate::page_table::PhysTables;
use crate::sched::Scheduler;
use crate::store::AddrStore;
use crate::thread::{ExecutionContext, Thread};

verus! {

/// A hardware effect an operation requests of the platform layer, which
/// performs it before returning to user mode.
#[derive(Clone, Copy, Debug, PartialEq, Eq, Structural)]
pub enum HwAction {
    /// Invalidate cached translations for `vaddr` under `asid`.
    InvalidateTlbVa { asid: u16, vaddr: u64 },
    /// Invalidate every cached translation for `asid`.
    InvalidateTlbAsid { asid: u16 },
    /// Install `root` with `asid` as the current translation context.
    InstallTranslationContext { root: u64, asid: u16 },
    /// Zero `bytes` bytes of physical memory from `paddr`: a freshly
    /// carved frame, sanitized before its capability is installed.
    ZeroFrame { paddr: u64, bytes: u64 },
}

/// Pools of architecture objects.
pub struct ArchPools {
    pub page_tables: ObjectPool<AArch64PageTable>,
    /// Address spaces: the protection and mapping contexts.
    pub address_spaces: ObjectPool<AArch64AddressSpace>,
    /// ASID pools: boot-provided namespace resources.
    pub asid_pools: ObjectPool<AArch64ASIDPool>,
}

impl ArchPools {
    /// The architecture pools, from their backings.
    pub fn new(
        page_tables: ObjectPool<AArch64PageTable>,
        address_spaces: ObjectPool<AArch64AddressSpace>,
        asid_pools: ObjectPool<AArch64ASIDPool>,
    ) -> (r: ArchPools)
        ensures
            r.page_tables == page_tables,
            r.address_spaces == address_spaces,
            r.asid_pools == asid_pools,
    {
        ArchPools { page_tables, address_spaces, asid_pools }
    }

    /// Each pool consistent and carrying its own tag.
    pub open spec fn wf(&self) -> bool {
        &&& self.page_tables.wf() && self.page_tables.tag() == PoolTag::PageTable
        &&& self.address_spaces.wf() && self.address_spaces.tag() == PoolTag::AddressSpace
        &&& self.asid_pools.wf() && self.asid_pools.tag() == PoolTag::ASIDPool
    }
}

/// Every kernel object pool.
pub struct NucleusPools {
    pub threads: ObjectPool<Thread>,
    pub notifications: ObjectPool<Notification>,
    pub event_counts: ObjectPool<EventCount>,
    pub arch: ArchPools,
}

impl NucleusPools {
    /// Each pool consistent and carrying its own tag.
    pub open spec fn wf(&self) -> bool {
        &&& self.threads.wf() && self.threads.tag() == PoolTag::Thread
        &&& self.notifications.wf() && self.notifications.tag() == PoolTag::Notification
        &&& self.event_counts.wf() && self.event_counts.tag() == PoolTag::EventCount
        &&& self.arch.wf()
    }
}

/// Why a running thread stops running.
#[derive(Clone, Copy, Debug, PartialEq, Eq, Structural)]
pub enum DeactivateReason {
    TimeExhausted,
    Blocked { reason: BlockReason, slot: KeySlot },
    Faulted { fault_type: FaultType, code: u32, addr: u64, slot: KeySlot },
    Suspended,
    Yielded,
}

/// The kind of a fault recorded in a control block.
#[derive(Clone, Copy, Debug, PartialEq, Eq, Structural)]
pub enum FaultType {
    NoFault,
    PageFault,
    CapFault,
    UnknownSyscall,
    UserException,
    VMFault,
}

/// The stored word of each fault kind.
pub open spec fn fault_code(f: FaultType) -> u32 {
    match f {
        FaultType::NoFault => 0,
        FaultType::PageFault => 1,
        FaultType::CapFault => 2,
        FaultType::UnknownSyscall => 3,
        FaultType::UserException => 4,
        FaultType::VMFault => 5,
    }
}

impl FaultType {
    /// The stored word of this fault kind.
    pub fn code(self) -> (r: u32)
        ensures
            r == fault_code(self),
    {
        match self {
            FaultType::NoFault => 0,
            FaultType::PageFault => 1,
            FaultType::CapFault => 2,
            FaultType::UnknownSyscall => 3,
            FaultType::UserException => 4,
            FaultType::VMFault => 5,
        }
    }
}

/// A control block after its thread is deactivated for `reason`: no time
/// is charged, and the state (with the block or fault record) follows the
/// reason.
pub open spec fn deactivated_dcb(d: DomainControlBlock, reason: DeactivateReason) -> DomainControlBlock {
    match reason {
        DeactivateReason::TimeExhausted | DeactivateReason::Yielded =>
            DomainControlBlock { state: state_code(DomainState::Runnable), ..d },
        DeactivateReason::Blocked { reason, slot } => DomainControlBlock {
            block_reason: block_code(reason),
            blocked_on_slot: slot.0,
            state: state_code(DomainState::Blocked),
            ..d
        },
        DeactivateReason::Faulted { fault_type, code, addr, slot } => DomainControlBlock {
            fault_type: fault_code(fault_type),
            fault_code: code,
            fault_addr: addr,
            fault_slot: slot.0,
            state: state_code(DomainState::Faulted),
            ..d
        },
        DeactivateReason::Suspended => DomainControlBlock { state: state_code(DomainState::Suspended), ..d },
    }
}

/// The state a deactivation leaves: a domain that used up its time slice
/// or yielded is runnable again (state word 1); a blocked one is blocked
/// (3) with its reason and slot recorded; a faulted one is faulted (4) with
/// its fault recorded; only a suspension suspends it (5). Its identity,
/// accounting and pending notifications are untouched.
pub proof fn lemma_deactivation_state(d: DomainControlBlock, reason: DeactivateReason)
    ensures
        ({
            let d2 = deactivated_dcb(d, reason);
            &&& (reason is TimeExhausted || reason is Yielded) ==> d2 == (DomainControlBlock { state: 1, ..d })
            &&& reason is Suspended ==> d2 == (DomainControlBlock { state: 5, ..d })
            &&& reason is Blocked ==> d2.state == 3 && d2.blocked_on_slot == (reason->Blocked_slot).0
            &&& reason is Faulted ==> d2.state == 4 && d2.fault_code == reason->Faulted_code
                && d2.fault_addr == reason->Faulted_addr && d2.fault_slot == (reason->Faulted_slot).0
            &&& d2.id == d.id && d2.scheduler_id == d.scheduler_id
            &&& d2.time_remaining_ns == d.time_remaining_ns && d2.time_consumed_ns == d.time_consumed_ns
            &&& d2.last_activated_ns == d.last_activated_ns && d2.activation_count == d.activation_count
            &&& d2.cpu == d.cpu && d2.pending_notifications == d.pending_notifications
        }),
{
}

/// A control block after a notification signal on `slot`: the slot's bit
/// is pending, and a domain blocked on notifications becomes runnable.
pub open spec fn signalled_dcb(d: DomainControlBlock, slot: KeySlot) -> DomainControlBlock {
    let d2 = DomainControlBlock { pending_notifications: d.pending_notifications | ((1u64 << slot.0) as u64), ..d };
    if d.state == state_code(DomainState::Blocked) && d.block_reason == block_code(BlockReason::Notification) {
        DomainControlBlock { state: state_code(DomainState::Runnable), ..d2 }
    } else {
        d2
    }
}

/// `new` is `old` with every live notification's queue purged of the
/// records `pending` names as `waiter`'s, in order; nothing else changes.
pub open spec fn notifications_purged(old: ObjectPool<Notification>, new: ObjectPool<Notification>,
    pending: PendingPool, waiter: ObjectId) -> bool {
    &&& new.meta() == old.meta()
    &&& new.tag() == old.tag()
    &&& new.capacity() == old.capacity()
    &&& new.next_free() == old.next_free()
    &&& new.spec_len() == old.spec_len()
    &&& new.objects().len() == old.objects().len()
    &&& forall|s: int| 0 <= s < old.capacity() ==> {
        &&& (#[trigger] old.objects()[s]) is None ==> new.objects()[s] is None
        &&& old.objects()[s] is Some ==> {
            &&& new.objects()[s] is Some
            &&& new.objects()[s].unwrap().bits() == old.objects()[s].unwrap().bits()
            &&& new.objects()[s].unwrap().queued() == old.objects()[s].unwrap().queued()
                .filter(|x: ObjectId| keeps_record(&pending, waiter, x))
        }
    }
}

/// `new` is `old` with every live event count's queue purged of the
/// records `pending` names as `waiter`'s, in order; nothing else changes.
pub open spec fn event_counts_purged(old: ObjectPool<EventCount>, new: ObjectPool<EventCount>,
    pending: PendingPool, waiter: ObjectId) -> bool {
    &&& new.meta() == old.meta()
    &&& new.tag() == old.tag()
    &&& new.capacity() == old.capacity()
    &&& new.next_free() == old.next_free()
    &&& new.spec_len() == old.spec_len()
    &&& new.objects().len() == old.objects().len()
    &&& forall|s: int| 0 <= s < old.capacity() ==> {
        &&& (#[trigger] old.objects()[s]) is None ==> new.objects()[s] is None
        &&& old.objects()[s] is Some ==> {
            &&& new.objects()[s] is Some
            &&& new.objects()[s].unwrap().spec_value() == old.objects()[s].unwrap().spec_value()
            &&& new.objects()[s].unwrap().queued() == old.objects()[s].unwrap().queued()
                .filter(|e: (ObjectId, u64)| keeps_record(&pending, waiter, e.0))
        }
    }
}

/// What thread-teardown cancellation does to everything but the thread
/// pool: every live notification and event count stops holding the
/// thread's records (other waiters keep their order), each of the thread's
/// records is released, and the runnable queue loses the thread's index.
pub open spec fn pending_cancelled(a: &Nucleus, b: &Nucleus, thread: ObjectId) -> bool {
    &&& notifications_purged(a.pools.notifications, b.pools.notifications, a.pending, thread)
    &&& event_counts_purged(a.pools.event_counts, b.pools.event_counts, a.pending, thread)
    &&& forall|s: int| 0 <= s < PendingPool::CAPACITY ==> #[trigger] b.pending.records()[s]
        == if record_of(a.pending.records()[s], thread) { None } else { a.pending.records()[s] }
    &&& b.pending.generations() == a.pending.generations()
    &&& a.pending.evolves_to(&b.pending)
    &&& b.scheduler@ == a.scheduler@.filter(|x: u16| x != thread.index)
    &&& b.pools.arch == a.pools.arch
    &&& b.tables == a.tables
    &&& b.phys == a.phys
    &&& b.dcb_pages == a.dcb_pages
    &&& b.current_thread == a.current_thread
    &&& b.hw == a.hw
}

/// The ASID the address space in slot `s` of `spaces` is bound to, if it
/// is live and bound.
pub open spec fn bound_asid(spaces: ObjectPool<AArch64AddressSpace>, s: int) -> Option<u16> {
    match spaces.objects()[s] {
        Some(x) => x.asid,
        None => None,
    }
}

/// ASID 0 is the kernel's own: every ASID pool holds it taken, and no
/// address space is bound to it. The boot pool, in slot 0, is the only
/// ASID pool; every bound ASID is one of its ASIDs, held taken there, and
/// no two address spaces are bound to the same ASID.
pub open spec fn asids_consistent(arch: &ArchPools) -> bool {
    asid_bindings_consistent(arch.asid_pools, arch.address_spaces)
}

/// See [`asids_consistent`].
pub open spec fn asid_bindings_consistent(asid_pools: ObjectPool<AArch64ASIDPool>,
    spaces: ObjectPool<AArch64AddressSpace>) -> bool {
    let pools = asid_pools.objects();
    let n = spaces.objects().len();
    &&& forall|s: int| 0 <= s < pools.len() && (#[trigger] pools[s]) is Some ==> pools[s].unwrap().is_taken(0)
    &&& forall|s: int| 0 <= s < n && (#[trigger] spaces.objects()[s]) is Some
        ==> spaces.objects()[s].unwrap().asid != Some(0u16)
    &&& forall|s: int| 0 < s < pools.len() ==> (#[trigger] pools[s]) is None
    &&& forall|s: int| 0 <= s < n && (#[trigger] bound_asid(spaces, s)) is Some ==> {
        &&& bound_asid(spaces, s)->Some_0 < AArch64ASIDPool::ASIDS_PER_POOL
        &&& 0 < pools.len() && pools[0] is Some
        &&& pools[0].unwrap().is_taken(bound_asid(spaces, s)->Some_0 as int)
    }
    &&& forall|s: int, t: int| 0 <= s < n && 0 <= t < n && s != t && (#[trigger] bound_asid(spaces, s)) is Some
        ==> bound_asid(spaces, s) != #[trigger] bound_asid(spaces, t)
}

/// The ASID invariant depends only on the ASID pools and each address
/// space's binding.
pub proof fn lemma_asids_consistent_frame(a: &ArchPools, b: &ArchPools)
    requires
        asids_consistent(a),
        b.asid_pools.objects() == a.asid_pools.objects(),
        b.address_spaces.objects().len() == a.address_spaces.objects().len(),
        forall|s: int| 0 <= s < a.address_spaces.objects().len() ==> #[trigger] bound_asid(b.address_spaces, s) == bound_asid(a.address_spaces, s),
    ensures
        asids_consistent(b),
{
    assert forall|s: int| 0 <= s < b.address_spaces.objects().len() && (#[trigger] b.address_spaces.objects()[s]) is Some
        implies b.address_spaces.objects()[s].unwrap().asid != Some(0u16) by {
        assert(bound_asid(b.address_spaces, s) == bound_asid(a.address_spaces, s));
        if bound_asid(a.address_spaces, s) is Some {
            assert(bound_asid(a.address_spaces, s) != Some(0u16)) by {
                assert(a.address_spaces.objects()[s] is Some);
            }
        }
    }
}

/// Releasing the ASID of the address space in slot `i` as that space is
/// retired keeps the ASID invariant.
pub proof fn lemma_asids_after_retire(a: &ArchPools, b: &ArchPools, i: int)
    requires
        asids_consistent(a),
        0 <= i < a.address_spaces.objects().len(),
        b.address_spaces.objects() == a.address_spaces.objects().update(i, None),
        bound_asid(a.address_spaces, i) is None ==> b.asid_pools.objects() == a.asid_pools.objects(),
        bound_asid(a.address_spaces, i) is Some ==> {
            &&& b.asid_pools.objects().len() == a.asid_pools.objects().len()
            &&& forall|s: int| 0 < s < a.asid_pools.objects().len()
                ==> #[trigger] b.asid_pools.objects()[s] == a.asid_pools.objects()[s]
            &&& b.asid_pools.objects()[0] is Some
            &&& forall|c: int| 0 <= c < AArch64ASIDPool::ASIDS_PER_POOL ==>
                #[trigger] b.asid_pools.objects()[0].unwrap().is_taken(c)
                == (c != bound_asid(a.address_spaces, i)->Some_0 && a.asid_pools.objects()[0].unwrap().is_taken(c))
        },
    ensures
        asids_consistent(b),
{
    let n = a.address_spaces.objects().len();
    assert forall|s: int| 0 <= s < n && s != i implies #[trigger] bound_asid(b.address_spaces, s) == bound_asid(a.address_spaces, s) by {}
    assert(bound_asid(b.address_spaces, i) is None);
    if let Some(x) = bound_asid(a.address_spaces, i) {
        let pools = b.asid_pools.objects();
        assert forall|s: int| 0 <= s < pools.len() && (#[trigger] pools[s]) is Some implies pools[s].unwrap().is_taken(0) by {
            if s == 0 {
                assert(x != 0u16);
                assert(a.asid_pools.objects()[0] is Some);
            }
        }
        assert forall|s: int| 0 <= s < n && (#[trigger] bound_asid(b.address_spaces, s)) is Some implies {
            &&& bound_asid(b.address_spaces, s)->Some_0 < AArch64ASIDPool::ASIDS_PER_POOL
            &&& 0 < pools.len() && pools[0] is Some
            &&& pools[0].unwrap().is_taken(bound_asid(b.address_spaces, s)->Some_0 as int)
        } by {
            assert(s != i);
            assert(bound_asid(a.address_spaces, s) != bound_asid(a.address_spaces, i));
        }
    } else {
        lemma_asids_consistent_frame(a, b);
    }
}

/// Replacing an ASID pool by one with the same bitmap keeps the ASID
/// invariant.
pub proof fn lemma_asids_same_bitmap(a: &ArchPools, b: &ArchPools, p: int)
    requires
        asids_consistent(a),
        0 <= p < a.asid_pools.objects().len(),
        a.asid_pools.objects()[p] is Some,
        b.address_spaces == a.address_spaces,
        b.asid_pools.objects().len() == a.asid_pools.objects().len(),
        forall|s: int| 0 <= s < a.asid_pools.objects().len() && s != p
            ==> #[trigger] b.asid_pools.objects()[s] == a.asid_pools.objects()[s],
        b.asid_pools.objects()[p] is Some,
        b.asid_pools.objects()[p].unwrap().words() == a.asid_pools.objects()[p].unwrap().words(),
    ensures
        asids_consistent(b),
{
    let pools = b.asid_pools.objects();
    assert forall|s: int| 0 <= s < pools.len() && (#[trigger] pools[s]) is Some implies pools[s].unwrap().is_taken(0) by {
        assert(a.asid_pools.objects()[s] is Some);
    }
    assert forall|s: int| 0 <= s < b.address_spaces.objects().len()
        && (#[trigger] bound_asid(b.address_spaces, s)) is Some implies {
        &&& bound_asid(b.address_spaces, s)->Some_0 < AArch64ASIDPool::ASIDS_PER_POOL
        &&& 0 < pools.len() && pools[0] is Some
        &&& pools[0].unwrap().is_taken(bound_asid(b.address_spaces, s)->Some_0 as int)
    } by {
        assert(bound_asid(a.address_spaces, s) == bound_asid(b.address_spaces, s));
    }
}

/// Binding a free ASID of the boot pool to an unbound address space keeps
/// the ASID invariant.
pub proof fn lemma_asids_after_assign(a: &ArchPools, b: &ArchPools, p: int, i: int, x: u16)
    requires
        asids_consistent(a),
        0 <= p < a.asid_pools.objects().len(),
        a.asid_pools.objects()[p] is Some,
        x < AArch64ASIDPool::ASIDS_PER_POOL,
        !a.asid_pools.objects()[p].unwrap().is_taken(x as int),
        0 <= i < a.address_spaces.objects().len(),
        a.address_spaces.objects()[i] is Some,
        bound_asid(a.address_spaces, i) is None,
        b.asid_pools.objects().len() == a.asid_pools.objects().len(),
        forall|s: int| 0 <= s < a.asid_pools.objects().len() && s != p
            ==> #[trigger] b.asid_pools.objects()[s] == a.asid_pools.objects()[s],
        b.asid_pools.objects()[p] is Some,
        forall|c: int| 0 <= c < AArch64ASIDPool::ASIDS_PER_POOL ==>
            #[trigger] b.asid_pools.objects()[p].unwrap().is_taken(c)
            == (c == x || a.asid_pools.objects()[p].unwrap().is_taken(c)),
        b.address_spaces.objects() == a.address_spaces.objects().update(i,
            Some(AArch64AddressSpace { asid: Some(x), ..a.address_spaces.objects()[i].unwrap() })),
    ensures
        asids_consistent(b),
{
    let n = a.address_spaces.objects().len();
    assert(p == 0);
    assert(x != 0u16);
    assert(bound_asid(b.address_spaces, i) == Some(x));
    assert forall|s: int| 0 <= s < n && s != i implies #[trigger] bound_asid(b.address_spaces, s) == bound_asid(a.address_spaces, s) by {}
    let pools = b.asid_pools.objects();
    assert forall|s: int| 0 <= s < pools.len() && (#[trigger] pools[s]) is Some implies pools[s].unwrap().is_taken(0) by {
        if s == 0 {
            assert(a.asid_pools.objects()[0].unwrap().is_taken(0));
        }
    }
    assert forall|s: int| 0 <= s < n && (#[trigger] bound_asid(b.address_spaces, s)) is Some implies {
        &&& bound_asid(b.address_spaces, s)->Some_0 < AArch64ASIDPool::ASIDS_PER_POOL
        &&& 0 < pools.len() && pools[0] is Some
        &&& pools[0].unwrap().is_taken(bound_asid(b.address_spaces, s)->Some_0 as int)
    } by {
        if s != i {
            assert(bound_asid(a.address_spaces, s) == bound_asid(b.address_spaces, s));
        }
    }
    assert forall|s: int, t: int| 0 <= s < n && 0 <= t < n && s != t && (#[trigger] bound_asid(b.address_spaces, s)) is Some
        implies bound_asid(b.address_spaces, s) != #[trigger] bound_asid(b.address_spaces, t) by {
        if s == i {
            if bound_asid(a.address_spaces, t) is Some {
                assert(a.asid_pools.objects()[0].unwrap().is_taken(bound_asid(a.address_spaces, t)->Some_0 as int));
            }
        } else if t == i {
            assert(a.asid_pools.objects()[0].unwrap().is_taken(bound_asid(a.address_spaces, s)->Some_0 as int));
        } else {
            assert(bound_asid(a.address_spaces, s) != bound_asid(a.address_spaces, t));
        }
    }
    assert forall|s: int| 0 <= s < n && (#[trigger] b.address_spaces.objects()[s]) is Some
        implies b.address_spaces.objects()[s].unwrap().asid != Some(0u16) by {
        if s != i {
            assert(a.address_spaces.objects()[s] is Some);
        }
    }
}

/// The complete nucleus state.
pub struct Nucleus {
    /// All object pools.
    pub pools: NucleusPools,
    /// Carved capability tables, by kernel address.
    pub tables: AddrStore<KeyTable>,
    /// Carved translation tables, by physical address.
    pub phys: PhysTables,
    /// Index of the running thread in the thread pool.
    pub current_thread: Option<u32>,
    /// Control-block pages.
    pub dcb_pages: DcbPages,
    /// Records of blocked invocations.
    pub pending: PendingPool,
    /// Runnable-thread queue.
    pub scheduler: Scheduler,
    /// Hardware effects requested of the platform layer, oldest first.
    pub hw: Vec<HwAction>,
}

impl Nucleus {
    /// Every component consistent, and every carved table well formed.
    pub open spec fn wf(&self) -> bool {
        &&& self.pools.wf()
        &&& asids_consistent(&self.pools.arch)
        &&& self.tables.wf()
        &&& forall|a: u64| #[trigger] self.tables@.contains_key(a) ==> self.tables@[a].wf()
        &&& self.phys.wf()
        &&& self.dcb_pages.wf()
        &&& self.pending.wf()
        &&& self.scheduler.wf()
    }

    /// The running thread, if it is live.
    pub open spec fn current(&self) -> Option<Thread> {
        match self.current_thread {
            Some(index) => if (index as int) < self.pools.threads.capacity()
                && self.pools.threads.meta()[index as int].state == SlotState::Live {
                Some(self.pools.threads.objects()[index as int].unwrap())
            } else {
                None
            },
            None => None,
        }
    }

    /// A nucleus assembled from its components.
    pub fn new(pools: NucleusPools, dcb_pages: DcbPages) -> (r: Nucleus)
        ensures
            r.pools == pools,
            r.tables@ == Map::<u64, KeyTable>::empty(),
            r.phys.contents() == Map::<u64, Seq<u64>>::empty(),
            r.current_thread is None,
            r.dcb_pages == dcb_pages,
            r.pending.wf(),
            forall|s: int| 0 <= s < PendingPool::CAPACITY ==> #[trigger] r.pending.records()[s] is None,
            r.scheduler.wf(),
            r.scheduler@.len() == 0,
            r.hw@.len() == 0,
            pools.wf() && asids_consistent(&pools.arch) && dcb_pages.wf() ==> r.wf(),
    {
        let r = Nucleus {
            pools,
            tables: AddrStore::new(),
            phys: PhysTables::new(),
            current_thread: None,
            dcb_pages,
            pending: PendingPool::new(),
            scheduler: Scheduler::new(),
            hw: Vec::new(),
        };
        r
    }

    /// The executing CPU: the nucleus runs on one core.
    pub fn current_cpu(&self) -> (r: usize)
        ensures
            r == 0,
    {
        0
    }

    /// The current time: no clock is wired in yet, so it reads zero.
    pub fn current_time_ns(&self) -> (r: u64)
        ensures
            r == 0,
    {
        0
    }

    /// Exclusive access to the running thread, if it is live.
    pub fn current_thread_mut(&mut self) -> (r: Option<&mut Thread>)
        requires
            old(self).wf(),
        ensures
            final(self).wf(),
            match old(self).current() {
                Some(t) => r matches Some(x) && *x == t && {
                    let i = old(self).current_thread->Some_0 as int;
                    &&& final(self).pools.threads.objects() == old(self).pools.threads.objects().update(i, Some(*final(x)))
                    &&& final(self).pools.threads.meta() == old(self).pools.threads.meta()
                    &&& final(self).pools.threads.tag() == old(self).pools.threads.tag()
                    &&& final(self).pools.threads.capacity() == old(self).pools.threads.capacity()
                    &&& final(self).pools.threads.next_free() == old(self).pools.threads.next_free()
                    &&& final(self).pools.threads.spec_len() == old(self).pools.threads.spec_len()
                },
                None => r is None && *final(self) == *old(self),
            },
            final(self).current_thread == old(self).current_thread,
            final(self).tables == old(self).tables,
            final(self).phys == old(self).phys,
            final(self).pending == old(self).pending,
            final(self).scheduler == old(self).scheduler,
            final(self).dcb_pages == old(self).dcb_pages,
            final(self).pools.notifications == old(self).pools.notifications,
            final(self).pools.event_counts == old(self).pools.event_counts,
            final(self).pools.arch == old(self).pools.arch,
            final(self).hw == old(self).hw,
    {
        let id = match self.current_thread {
            Some(id) => id,
            None => {
                return None;
            },
        };
        self.pools.threads.get_live_mut(id as usize)
    }

    /// Kernel address of the running thread's capability table.
    pub fn current_thread_table_addr(&self) -> (r: Option<u64>)
        requires
            self.wf(),
        ensures
            r == match self.current() {
                Some(t) => Some(t.keytable_addr),
                None => None::<u64>,
            },
    {
        let id = match self.current_thread {
            Some(id) => id,
            None => {
                return None;
            },
        };
        match self.pools.threads.get_live(id as usize) {
            Some(thread) => Some(thread.keytable_addr),
            None => None,
        }
    }

    /// The running thread's capability table.
    pub fn current_thread_table(&self) -> (r: Option<&KeyTable>)
        requires
            self.wf(),
        ensures
            r == match self.current() {
                Some(t) => if self.tables@.contains_key(t.keytable_addr) {
                    Some(&self.tables@[t.keytable_addr])
                } else {
                    None::<&KeyTable>
                },
                None => None::<&KeyTable>,
            },
    {
        let addr = match self.current_thread_table_addr() {
            Some(a) => a,
            None => {
                return None;
            },
        };
        self.tables.get(addr)
    }

    /// The running thread's control block.
    pub fn current_dcb_mut(&mut self) -> (r: Option<&mut DomainControlBlock>)
        requires
            old(self).wf(),
        ensures
            final(self).wf(),
            match old(self).current_thread {
                None => r is None && *final(self) == *old(self),
                Some(id) => match old(self).dcb_pages.dcb(DomainId(id)) {
                    Some(d) => r matches Some(x) && *x == d && forall|j: DomainId| #[trigger] final(self).dcb_pages.dcb(j)
                        == if j == DomainId(id) { Some(*final(x)) } else { old(self).dcb_pages.dcb(j) },
                    None => r is None && final(self).dcb_pages.dcb(DomainId(id)) is None,
                },
            },
            final(self).dcb_pages.words() == old(self).dcb_pages.words(),
            final(self).pools == old(self).pools,
            final(self).tables == old(self).tables,
            final(self).pending == old(self).pending,
            final(self).scheduler == old(self).scheduler,
            final(self).current_thread == old(self).current_thread,
    {
        let id = match self.current_thread {
            Some(id) => id,
            None => {
                return None;
            },
        };
        let ghost before = self.dcb_pages;
        let r = self.dcb_pages.get_mut(DomainId(id));
        proof {
            assert forall|j: DomainId| (j.0 as int / 32 == id as int / 32 && j.0 as int % 32 == id as int % 32) <==> j == DomainId(id) by {
                vstd::arithmetic::div_mod::lemma_fundamental_div_mod(j.0 as int, 32);
                vstd::arithmetic::div_mod::lemma_fundamental_div_mod(id as int, 32);
            }
        }
        r
    }

    /// Thread-teardown cancellation: every live notification and event
    /// count stops holding the thread's records (other waiters keep their
    /// order), each of the thread's pending records reaches its terminal
    /// disposition and is released, and the runnable queue loses the
    /// thread's index. The thread must still be live: a stale identity means
    /// teardown out of order and is rejected, changing nothing.
    pub fn cancel_thread_pending(&mut self, thread: ObjectId) -> (r: Result<(), CapError>)
        requires
            old(self).wf(),
        ensures
            final(self).wf(),
            old(self).pools.threads.live(thread) is None ==> r == Err::<(), CapError>(CapError::InvalidOperation)
                && *final(self) == *old(self),
            old(self).pools.threads.live(thread) is Some ==> {
                &&& r == Ok::<(), CapError>(())
                &&& pending_cancelled(old(self), final(self), thread)
                &&& final(self).pools.threads == old(self).pools.threads
            },
    {
        self.pools.threads.validate(thread)?;
        let mut slot: usize = 0;
        while slot < MAX_POOL_SLOTS
            invariant
                self.wf(),
                slot <= MAX_POOL_SLOTS,
                self.pending == old(self).pending,
                self.pools.threads == old(self).pools.threads,
                self.pools.event_counts == old(self).pools.event_counts,
                self.pools.arch == old(self).pools.arch,
                self.tables == old(self).tables,
                self.phys == old(self).phys,
                self.dcb_pages == old(self).dcb_pages,
                self.scheduler == old(self).scheduler,
                self.current_thread == old(self).current_thread,
                self.hw == old(self).hw,
                self.pools.notifications.meta() == old(self).pools.notifications.meta(),
                self.pools.notifications.tag() == old(self).pools.notifications.tag(),
                self.pools.notifications.capacity() == old(self).pools.notifications.capacity(),
                self.pools.notifications.next_free() == old(self).pools.notifications.next_free(),
                self.pools.notifications.spec_len() == old(self).pools.notifications.spec_len(),
                forall|s: int| slot <= s < self.pools.notifications.capacity() ==>
                    #[trigger] self.pools.notifications.objects()[s] == old(self).pools.notifications.objects()[s],
                forall|s: int| 0 <= s < slot && s < old(self).pools.notifications.capacity() ==> {
                    &&& (#[trigger] old(self).pools.notifications.objects()[s]) is None ==> self.pools.notifications.objects()[s] is None
                    &&& old(self).pools.notifications.objects()[s] is Some ==> {
                        &&& self.pools.notifications.objects()[s] is Some
                        &&& self.pools.notifications.objects()[s].unwrap().bits() == old(self).pools.notifications.objects()[s].unwrap().bits()
                        &&& self.pools.notifications.objects()[s].unwrap().queued() == old(self).pools.notifications.objects()[s].unwrap().queued()
                            .filter(|x: ObjectId| keeps_record(&old(self).pending, thread, x))
                    }
                },
            decreases MAX_POOL_SLOTS - slot,
        {
            match self.pools.notifications.get_live_mut(slot) {
                Some(notification) => {
                    notification.remove_waiter(thread, &self.pending);
                },
                None => {},
            }
            slot = slot + 1;
        }
        let ghost mid = *self;
        let mut slot: usize = 0;
        while slot < MAX_POOL_SLOTS
            invariant
                self.wf(),
                slot <= MAX_POOL_SLOTS,
                self.pending == old(self).pending,
                self.pools.threads == old(self).pools.threads,
                self.pools.notifications == mid.pools.notifications,
                self.pools.arch == old(self).pools.arch,
                self.tables == old(self).tables,
                self.phys == old(self).phys,
                self.dcb_pages == old(self).dcb_pages,
                self.scheduler == old(self).scheduler,
                self.current_thread == old(self).current_thread,
                self.hw == old(self).hw,
                self.pools.event_counts.meta() == old(self).pools.event_counts.meta(),
                self.pools.event_counts.tag() == old(self).pools.event_counts.tag(),
                self.pools.event_counts.capacity() == old(self).pools.event_counts.capacity(),
                self.pools.event_counts.next_free() == old(self).pools.event_counts.next_free(),
                self.pools.event_counts.spec_len() == old(self).pools.event_counts.spec_len(),
                forall|s: int| slot <= s < self.pools.event_counts.capacity() ==>
                    #[trigger] self.pools.event_counts.objects()[s] == old(self).pools.event_counts.objects()[s],
                forall|s: int| 0 <= s < slot && s < old(self).pools.event_counts.capacity() ==> {
                    &&& (#[trigger] old(self).pools.event_counts.objects()[s]) is None ==> self.pools.event_counts.objects()[s] is None
                    &&& old(self).pools.event_counts.objects()[s] is Some ==> {
                        &&& self.pools.event_counts.objects()[s] is Some
                        &&& self.pools.event_counts.objects()[s].unwrap().spec_value() == old(self).pools.event_counts.objects()[s].unwrap().spec_value()
                        &&& self.pools.event_counts.objects()[s].unwrap().queued() == old(self).pools.event_counts.objects()[s].unwrap().queued()
                            .filter(|e: (ObjectId, u64)| keeps_record(&old(self).pending, thread, e.0))
                    }
                },
            decreases MAX_POOL_SLOTS - slot,
        {
            match self.pools.event_counts.get_live_mut(slot) {
                Some(event_count) => {
                    event_count.remove_waiter(thread, &self.pending);
                },
                None => {},
            }
            slot = slot + 1;
        }
        let _released = self.pending.teardown_waiter(thread);
        self.scheduler.remove(thread.index);
        Ok(())
    }

    /// Create a thread running in `address_space` with the carved
    /// capability table at `keytable_addr`. The thread is allocated from
    /// the thread pool (when a slot is free); no bootstrap capability is
    /// installed, so no key is returned.
    pub fn create_thread(&mut self, keytable_addr: u64, address_space: ObjectId) -> (r: Option<RawKey>)
        requires
            old(self).wf(),
        ensures
            final(self).wf(),
            r is None,
            old(self).pools.threads.evolves_to(&final(self).pools.threads),
            match old(self).pools.threads.next_fit() {
                None => final(self).pools.threads == old(self).pools.threads,
                Some(s) => {
                    &&& final(self).pools.threads.objects() == old(self).pools.threads.objects().update(s,
                        Some(Thread { keytable_addr, address_space, context: ExecutionContext::Running }))
                    &&& final(self).pools.threads.meta() == old(self).pools.threads.meta().update(s, SlotMeta {
                        state: SlotState::Live,
                        generation: (old(self).pools.threads.meta()[s].generation + 1) as u32,
                    })
                    &&& final(self).pools.threads.next_free() == ring_index(s, 1, old(self).pools.threads.capacity())
                    &&& final(self).pools.threads.spec_len() == old(self).pools.threads.spec_len() + 1
                },
            },
            final(self).pools.notifications == old(self).pools.notifications,
            final(self).pools.event_counts == old(self).pools.event_counts,
            final(self).pools.arch == old(self).pools.arch,
            final(self).tables == old(self).tables,
            final(self).pending == old(self).pending,
            final(self).scheduler == old(self).scheduler,
            final(self).dcb_pages == old(self).dcb_pages,
            final(self).current_thread == old(self).current_thread,
    {
        let _thread_id = self.pools.threads.allocate(Thread {
            keytable_addr,
            address_space,
            context: ExecutionContext::Running,
        });
        None
    }

    /// Record the activation of domain `id` in its control block: a fresh
    /// time budget, the activation time and CPU, one more activation, and
    /// the running state last. A domain without a control block changes
    /// nothing.
    pub fn activate_thread(&mut self, id: DomainId, time_budget_ns: u64)
        requires
            old(self).wf(),
        ensures
            final(self).wf(),
            forall|j: DomainId| #[trigger] final(self).dcb_pages.dcb(j) == if j == id {
                match old(self).dcb_pages.dcb(id) {
                    Some(d) => Some(DomainControlBlock {
                        time_remaining_ns: time_budget_ns,
                        last_activated_ns: 0,
                        activation_count: (if d.activation_count == u64::MAX { 0 } else { d.activation_count + 1 }) as u64,
                        cpu: 0,
                        state: state_code(DomainState::Running),
                        ..d
                    }),
                    None => None::<DomainControlBlock>,
                }
            } else {
                old(self).dcb_pages.dcb(j)
            },
            final(self).dcb_pages.words() == old(self).dcb_pages.words(),
            final(self).dcb_pages.spec_num_pages() == old(self).dcb_pages.spec_num_pages(),
            final(self).pools == old(self).pools,
            final(self).tables == old(self).tables,
            final(self).pending == old(self).pending,
            final(self).scheduler == old(self).scheduler,
            final(self).current_thread == old(self).current_thread,
    {
        let cpu = self.current_cpu();
        let time = self.current_time_ns();
        match self.dcb_pages.get_mut(id) {
            Some(dcb) => {
                dcb.time_remaining_ns = time_budget_ns;
                dcb.last_activated_ns = time;
                dcb.activation_count = dcb.activation_count.wrapping_add(1);
                dcb.cpu = cpu as u32;
                dcb.state = DomainState::Running.code();
            },
            None => {},
        }
        proof {
            assert forall|j: DomainId| (j.0 as int / 32 == id.0 as int / 32 && j.0 as int % 32 == id.0 as int % 32) <==> j == id by {
                vstd::arithmetic::div_mod::lemma_fundamental_div_mod(j.0 as int, 32);
                vstd::arithmetic::div_mod::lemma_fundamental_div_mod(id.0 as int, 32);
            }
        }
    }

    /// Record in domain `id`'s control block that its thread stopped
    /// running for `reason` (see [`deactivated_dcb`]). A domain without a
    /// control block changes nothing.
    pub fn deactivate_thread(&mut self, id: DomainId, reason: DeactivateReason)
        requires
            old(self).wf(),
        ensures
            final(self).wf(),
            forall|j: DomainId| #[trigger] final(self).dcb_pages.dcb(j) == if j == id {
                match old(self).dcb_pages.dcb(id) {
                    Some(d) => Some(deactivated_dcb(d, reason)),
                    None => None::<DomainControlBlock>,
                }
            } else {
                old(self).dcb_pages.dcb(j)
            },
            old(self).dcb_pages.dcb(id) is Some ==> ({
                let st = final(self).dcb_pages.dcb(id)->Some_0.state;
                &&& (reason is TimeExhausted || reason is Yielded) ==> st == 1
                &&& reason is Blocked ==> st == 3
                &&& reason is Faulted ==> st == 4
                &&& reason is Suspended ==> st == 5
            }),
            final(self).dcb_pages.words() == old(self).dcb_pages.words(),
            final(self).dcb_pages.spec_num_pages() == old(self).dcb_pages.spec_num_pages(),
            final(self).pools == old(self).pools,
            final(self).tables == old(self).tables,
            final(self).pending == old(self).pending,
            final(self).scheduler == old(self).scheduler,
            final(self).current_thread == old(self).current_thread,
    {
        let elapsed: u64 = 0;
        match self.dcb_pages.get_mut(id) {
            Some(dcb) => {
                dcb.time_consumed_ns = dcb.time_consumed_ns.wrapping_add(elapsed);
                let remaining = dcb.time_remaining_ns;
                let charge = if elapsed < remaining { elapsed } else { remaining };
                dcb.time_remaining_ns = dcb.time_remaining_ns.wrapping_sub(charge);
                match reason {
                    DeactivateReason::TimeExhausted | DeactivateReason::Yielded => {
                        dcb.state = DomainState::Runnable.code();
                    },
                    DeactivateReason::Blocked { reason, slot } => {
                        dcb.block_reason = reason.code();
                        dcb.blocked_on_slot = slot.0;
                        dcb.state = DomainState::Blocked.code();
                    },
                    DeactivateReason::Faulted { fault_type, code, addr, slot } => {
                        dcb.fault_type = fault_type.code();
                        dcb.fault_code = code;
                        dcb.fault_addr = addr;
                        dcb.fault_slot = slot.0;
                        dcb.state = DomainState::Faulted.code();
                    },
                    DeactivateReason::Suspended => {
                        dcb.state = DomainState::Suspended.code();
                    },
                }
            },
            None => {},
        }
        proof {
            assert forall|j: DomainId| (j.0 as int / 32 == id.0 as int / 32 && j.0 as int % 32 == id.0 as int % 32) <==> j == id by {
                vstd::arithmetic::div_mod::lemma_fundamental_div_mod(j.0 as int, 32);
                vstd::arithmetic::div_mod::lemma_fundamental_div_mod(id.0 as int, 32);
            }
        }
    }

    /// Record a notification signal on `slot` in domain `id`'s control
    /// block (see [`signalled_dcb`]). A domain without a control block
    /// changes nothing.
    pub fn signal_notification(&mut self, id: DomainId, slot: KeySlot, bits: u64)
        requires
            old(self).wf(),
            slot.0 < 64,
        ensures
            final(self).wf(),
            forall|j: DomainId| #[trigger] final(self).dcb_pages.dcb(j) == if j == id {
                match old(self).dcb_pages.dcb(id) {
                    Some(d) => Some(signalled_dcb(d, slot)),
                    None => None::<DomainControlBlock>,
                }
            } else {
                old(self).dcb_pages.dcb(j)
            },
            final(self).dcb_pages.words() == old(self).dcb_pages.words(),
            final(self).dcb_pages.spec_num_pages() == old(self).dcb_pages.spec_num_pages(),
            final(self).pools == old(self).pools,
            final(self).tables == old(self).tables,
            final(self).pending == old(self).pending,
            final(self).scheduler == old(self).scheduler,
            final(self).current_thread == old(self).current_thread,
    {
        match self.dcb_pages.get_mut(id) {
            Some(dcb) => {
                dcb.pending_notifications = dcb.pending_notifications | (1u64 << slot.0);
                let state = dcb.state;
                let block_reason = dcb.block_reason;
                if state == DomainState::Blocked.code() && block_reason == BlockReason::Notification.code() {
                    dcb.state = DomainState::Runnable.code();
                }
            },
            None => {},
        }
        proof {
            assert forall|j: DomainId| (j.0 as int / 32 == id.0 as int / 32 && j.0 as int % 32 == id.0 as int % 32) <==> j == id by {
                vstd::arithmetic::div_mod::lemma_fundamental_div_mod(j.0 as int, 32);
                vstd::arithmetic::div_mod::lemma_fundamental_div_mod(id.0 as int, 32);
            }
        }
    }
}

} // verus!
