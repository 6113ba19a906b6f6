//! Domain control blocks: the user-visible per-domain scheduling records,
//! kept in pages of 32, and the allocator of domain identities over them.

use vstd::prelude::*;
use crate::bitmap::{bit_mask, bit_set, lemma_bit_index, lemma_word_clear_bit, lemma_word_full, lemma_word_set_bit,
    lowest_clear_bit, word_bit};
use crate::key::DomainId;

verus! {

/// Scheduling state of a domain, as stored in its control block.
#[derive(Clone, Copy, Debug, PartialEq, Eq, Structural)]
pub enum DomainState {
    Inactive,
    Runnable,
    Running,
    Blocked,
    Faulted,
    Suspended,
}

/// The stored word of each domain state.
pub open spec fn state_code(s: DomainState) -> u32 {
    match s {
        DomainState::Inactive => 0,
        DomainState::Runnable => 1,
        DomainState::Running => 2,
        DomainState::Blocked => 3,
        DomainState::Faulted => 4,
        DomainState::Suspended => 5,
    }
}

impl DomainState {
    /// The stored word of this state.
    pub fn code(self) -> (r: u32)
        ensures
            r == state_code(self),
    {
        match self {
            DomainState::Inactive => 0,
            DomainState::Runnable => 1,
            DomainState::Running => 2,
            DomainState::Blocked => 3,
            DomainState::Faulted => 4,
            DomainState::Suspended => 5,
        }
    }
}

/// What a blocked domain waits on.
#[derive(Clone, Copy, Debug, PartialEq, Eq, Structural)]
pub enum BlockReason {
    Unblocked,
    Notification,
    EventCount,
    Endpoint,
}

/// The stored word of each block reason.
pub open spec fn block_code(r: BlockReason) -> u32 {
    match r {
        BlockReason::Unblocked => 0,
        BlockReason::Notification => 1,
        BlockReason::EventCount => 2,
        BlockReason::Endpoint => 3,
    }
}

impl BlockReason {
    /// The stored word of this reason.
    pub fn code(self) -> (r: u32)
        ensures
            r == block_code(self),
    {
        match self {
            BlockReason::Unblocked => 0,
            BlockReason::Notification => 1,
            BlockReason::EventCount => 2,
            BlockReason::Endpoint => 3,
        }
    }
}

/// A domain's user-visible control block. The kernel writes it under the
/// kernel lock; the state word is written last so readers that observe a
/// state also observe the fields written before it.
#[derive(Clone, Copy, Debug, PartialEq, Eq, Structural)]
pub struct DomainControlBlock {
    pub id: DomainId,
    pub scheduler_id: DomainId,
    pub state: u32,
    pub block_reason: u32,
    pub blocked_on_slot: u32,
    pub fault_type: u32,
    pub fault_code: u32,
    pub fault_addr: u64,
    pub fault_slot: u32,
    pub time_remaining_ns: u64,
    pub time_consumed_ns: u64,
    pub last_activated_ns: u64,
    pub activation_count: u64,
    pub cpu: u32,
    pub pending_notifications: u64,
}

/// The control block of a newly allocated domain.
pub open spec fn fresh_dcb(id: DomainId, scheduler_id: DomainId) -> DomainControlBlock {
    DomainControlBlock {
        id,
        scheduler_id,
        state: 0,
        block_reason: 0,
        blocked_on_slot: 0,
        fault_type: 0,
        fault_code: 0,
        fault_addr: 0,
        fault_slot: 0,
        time_remaining_ns: 0,
        time_consumed_ns: 0,
        last_activated_ns: 0,
        activation_count: 0,
        cpu: 0,
        pending_notifications: 0,
    }
}

impl DomainControlBlock {
    /// A fresh, inactive control block for `id`, scheduled by
    /// `scheduler_id`, with every counter zero.
    pub fn new(id: DomainId, scheduler_id: DomainId) -> (r: DomainControlBlock)
        ensures
            r == fresh_dcb(id, scheduler_id),
    {
        DomainControlBlock {
            id,
            scheduler_id,
            state: 0,
            block_reason: 0,
            blocked_on_slot: 0,
            fault_type: 0,
            fault_code: 0,
            fault_addr: 0,
            fault_slot: 0,
            time_remaining_ns: 0,
            time_consumed_ns: 0,
            last_activated_ns: 0,
            activation_count: 0,
            cpu: 0,
            pending_notifications: 0,
        }
    }
}

/// One page of control blocks.
pub struct DcbPage {
    pub dcbs: Vec<DomainControlBlock>,
}

impl DcbPage {
    /// Control blocks per 4 KiB page (128 bytes each).
    pub const DCBS_PER_PAGE: usize = 32;

    /// A page of fresh control blocks with the invalid identity.
    pub fn new() -> (r: DcbPage)
        ensures
            r.dcbs@.len() == DcbPage::DCBS_PER_PAGE,
            forall|i: int| 0 <= i < DcbPage::DCBS_PER_PAGE ==> #[trigger] r.dcbs@[i]
                == fresh_dcb(DomainId(DomainId::INVALID), DomainId(DomainId::INVALID)),
    {
        let mut dcbs: Vec<DomainControlBlock> = Vec::new();
        while dcbs.len() < Self::DCBS_PER_PAGE
            invariant
                dcbs.len() <= DcbPage::DCBS_PER_PAGE,
                forall|i: int| 0 <= i < dcbs.len() ==> #[trigger] dcbs@[i]
                    == fresh_dcb(DomainId(DomainId::INVALID), DomainId(DomainId::INVALID)),
            decreases DcbPage::DCBS_PER_PAGE - dcbs.len(),
        {
            dcbs.push(DomainControlBlock::new(DomainId(DomainId::INVALID), DomainId(DomainId::INVALID)));
        }
        DcbPage { dcbs }
    }
}

/// Errors of the control-block page manager.
#[derive(Clone, Copy, Debug, PartialEq, Eq, Structural)]
pub enum DcbError {
    TooManyPages,
    PageNotAllocated,
    NoFreeDomains,
    NotAllocated,
    InvalidDomainId,
}

/// The page and in-page position of a domain's control block.
pub open spec fn dcb_page_of(id: DomainId) -> int {
    id.0 as int / 32
}

pub open spec fn dcb_slot_of(id: DomainId) -> int {
    id.0 as int % 32
}

/// The manager of all control-block pages: the pages added so far, their
/// physical addresses for user mapping, and the domain-identity allocation
/// bitmap (bit `n` set when domain `n` is allocated).
pub struct DcbPages {
    pages: Vec<Option<DcbPage>>,
    phys_addrs: Vec<Option<u64>>,
    num_pages: usize,
    next_domain_id: u32,
    allocated: Vec<u64>,
}

impl DcbPages {
    /// Maximum number of control-block pages.
    pub const MAX_PAGES: usize = 256;
    /// Maximum domains: 256 pages of 32 control blocks.
    pub const MAX_DOMAINS: usize = 8192;
    /// Allocation bitmap words.
    pub const WORDS: usize = 128;
    /// Well-known user-space base address of the read-only control-block
    /// mapping.
    pub const USER_BASE: u64 = 0x0000_7FFF_FE00_0000;

    pub closed spec fn words(&self) -> Seq<u64> {
        self.allocated@
    }

    pub closed spec fn spec_num_pages(&self) -> int {
        self.num_pages as int
    }

    /// The physical address recorded for page `i`, if added.
    pub closed spec fn phys_of(&self, i: int) -> Option<u64> {
        self.phys_addrs@[i]
    }

    /// The control block of domain `id`, if its page has been added.
    pub closed spec fn dcb(&self, id: DomainId) -> Option<DomainControlBlock> {
        let p = dcb_page_of(id);
        if p < DcbPages::MAX_PAGES && self.pages@[p] is Some {
            Some(self.pages@[p]->Some_0.dcbs@[dcb_slot_of(id)])
        } else {
            None
        }
    }

    /// Whether domain `n` is allocated.
    pub open spec fn is_allocated(&self, n: int) -> bool {
        bit_set(self.words(), n)
    }

    /// Pages fill in order; each added page holds 32 control blocks.
    pub closed spec fn wf(&self) -> bool {
        &&& self.pages@.len() == DcbPages::MAX_PAGES
        &&& self.phys_addrs@.len() == DcbPages::MAX_PAGES
        &&& self.allocated@.len() == DcbPages::WORDS
        &&& self.num_pages <= DcbPages::MAX_PAGES
        &&& forall|i: int| 0 <= i < DcbPages::MAX_PAGES ==> ((#[trigger] self.pages@[i]) is Some <==> i < self.num_pages)
        &&& forall|i: int| 0 <= i < DcbPages::MAX_PAGES ==> ((#[trigger] self.phys_addrs@[i]) is Some <==> i < self.num_pages)
        &&& forall|i: int| 0 <= i < DcbPages::MAX_PAGES && (#[trigger] self.pages@[i]) is Some
            ==> self.pages@[i]->Some_0.dcbs@.len() == DcbPage::DCBS_PER_PAGE
    }

    /// A domain's control block exists exactly when its page was added.
    pub proof fn lemma_dcb_exists(&self, id: DomainId)
        requires
            self.wf(),
        ensures
            self.dcb(id) is Some <==> dcb_page_of(id) < self.spec_num_pages(),
    {
    }

    /// No pages and no allocated domains.
    pub fn new() -> (r: DcbPages)
        ensures
            r.wf(),
            r.spec_num_pages() == 0,
            forall|n: int| 0 <= n < DcbPages::MAX_DOMAINS ==> !#[trigger] r.is_allocated(n),
    {
        let mut pages: Vec<Option<DcbPage>> = Vec::new();
        let mut phys_addrs: Vec<Option<u64>> = Vec::new();
        while pages.len() < Self::MAX_PAGES
            invariant
                pages.len() == phys_addrs.len(),
                pages.len() <= DcbPages::MAX_PAGES,
                forall|i: int| 0 <= i < pages.len() ==> (#[trigger] pages@[i]) is None,
                forall|i: int| 0 <= i < phys_addrs.len() ==> (#[trigger] phys_addrs@[i]) is None,
            decreases DcbPages::MAX_PAGES - pages.len(),
        {
            pages.push(None);
            phys_addrs.push(None);
        }
        let mut allocated: Vec<u64> = Vec::new();
        while allocated.len() < Self::WORDS
            invariant
                allocated.len() <= DcbPages::WORDS,
                forall|k: int| 0 <= k < allocated.len() ==> #[trigger] allocated@[k] == 0,
            decreases DcbPages::WORDS - allocated.len(),
        {
            allocated.push(0);
        }
        let r = DcbPages { pages, phys_addrs, num_pages: 0, next_domain_id: 0, allocated };
        proof {
            assert forall|n: int| 0 <= n < DcbPages::MAX_DOMAINS implies !#[trigger] r.is_allocated(n) by {
                lemma_bit_index(n);
                let j = (n % 64) as u64;
                assert((0u64 >> j) & 1 != 1) by (bit_vector);
            }
        }
        r
    }

    /// Add a control-block page backed by physical address `phys_addr`,
    /// returning its index.
    pub fn add_page(&mut self, page: DcbPage, phys_addr: u64) -> (r: Result<usize, DcbError>)
        requires
            old(self).wf(),
            page.dcbs@.len() == DcbPage::DCBS_PER_PAGE,
        ensures
            final(self).wf(),
            final(self).words() == old(self).words(),
            old(self).spec_num_pages() >= DcbPages::MAX_PAGES ==> r == Err::<usize, DcbError>(DcbError::TooManyPages)
                && final(self).spec_num_pages() == old(self).spec_num_pages()
                && forall|id: DomainId| #[trigger] final(self).dcb(id) == old(self).dcb(id),
            old(self).spec_num_pages() < DcbPages::MAX_PAGES ==> {
                &&& r == Ok::<usize, DcbError>(old(self).spec_num_pages() as usize)
                &&& final(self).spec_num_pages() == old(self).spec_num_pages() + 1
                &&& final(self).phys_of(old(self).spec_num_pages()) == Some(phys_addr)
                &&& forall|id: DomainId| #[trigger] final(self).dcb(id) == if dcb_page_of(id) == old(self).spec_num_pages() {
                    Some(page.dcbs@[dcb_slot_of(id)])
                } else {
                    old(self).dcb(id)
                }
            },
    {
        if self.num_pages >= Self::MAX_PAGES {
            return Err(DcbError::TooManyPages);
        }
        let idx = self.num_pages;
        self.pages.set(idx, Some(page));
        self.phys_addrs.set(idx, Some(phys_addr));
        self.num_pages = self.num_pages + 1;
        Ok(idx)
    }

    /// The control block of domain `id`, if its page has been added.
    pub fn get(&self, id: DomainId) -> (r: Option<&DomainControlBlock>)
        requires
            self.wf(),
        ensures
            r == match self.dcb(id) {
                Some(d) => Some(&d),
                None => None::<&DomainControlBlock>,
            },
    {
        let page_idx = (id.0 / 32) as usize;
        let slot = (id.0 % 32) as usize;
        if page_idx >= Self::MAX_PAGES {
            return None;
        }
        match &self.pages[page_idx] {
            Some(p) => Some(&p.dcbs[slot]),
            None => None,
        }
    }

    /// Exclusive access to the control block of domain `id`, if its page
    /// has been added; whatever the caller leaves there is what the block
    /// then holds.
    pub fn get_mut(&mut self, id: DomainId) -> (r: Option<&mut DomainControlBlock>)
        requires
            old(self).wf(),
        ensures
            final(self).wf(),
            final(self).words() == old(self).words(),
            final(self).spec_num_pages() == old(self).spec_num_pages(),
            forall|i: int| #[trigger] final(self).phys_of(i) == old(self).phys_of(i),
            match old(self).dcb(id) {
                Some(d) => r matches Some(x) && *x == d && forall|j: DomainId| #[trigger] final(self).dcb(j)
                    == if dcb_page_of(j) == dcb_page_of(id) && dcb_slot_of(j) == dcb_slot_of(id) {
                        Some(*final(x))
                    } else {
                        old(self).dcb(j)
                    },
                None => r is None && forall|j: DomainId| #[trigger] final(self).dcb(j) == old(self).dcb(j),
            },
    {
        let page_idx = (id.0 / 32) as usize;
        let slot = (id.0 % 32) as usize;
        if page_idx >= Self::MAX_PAGES || self.pages[page_idx].is_none() {
            return None;
        }
        match &mut self.pages[page_idx] {
            Some(p) => Some(&mut p.dcbs[slot]),
            None => None,
        }
    }

    /// Physical address of control-block page `page_idx`, for user mapping.
    pub fn page_phys_addr(&self, page_idx: usize) -> (r: Option<u64>)
        requires
            self.wf(),
        ensures
            page_idx < DcbPages::MAX_PAGES ==> r == self.phys_of(page_idx as int),
            page_idx >= DcbPages::MAX_PAGES ==> r is None,
    {
        if page_idx >= Self::MAX_PAGES {
            return None;
        }
        self.phys_addrs[page_idx]
    }

    /// User-space virtual address of domain `id`'s control block.
    pub fn user_addr(&self, id: DomainId) -> (r: u64)
        ensures
            r == DcbPages::USER_BASE + id.0 * 128,
    {
        Self::USER_BASE + (id.0 as u64) * 128
    }

    /// Number of allocated domains among the first `n`.
    pub open spec fn allocated_below(&self, n: int) -> int
        decreases n,
    {
        if n <= 0 {
            0
        } else {
            self.allocated_below(n - 1) + if self.is_allocated(n - 1) { 1int } else { 0int }
        }
    }

    /// The lowest unallocated domain identity, provided its control block's
    /// page has been added.
    fn find_free_slot(&self) -> (r: Result<u32, DcbError>)
        requires
            self.wf(),
        ensures
            match r {
                Ok(id) => {
                    &&& id < self.spec_num_pages() * 32
                    &&& !self.is_allocated(id as int)
                    &&& forall|m: int| 0 <= m < id ==> #[trigger] self.is_allocated(m)
                },
                Err(e) => e == DcbError::NoFreeDomains
                    && forall|m: int| 0 <= m < self.spec_num_pages() * 32 ==> #[trigger] self.is_allocated(m),
            },
    {
        let max_id = (self.num_pages * 32) as u32;
        let mut wi: usize = 0;
        while wi < Self::WORDS
            invariant
                self.wf(),
                max_id == self.spec_num_pages() * 32,
                wi <= DcbPages::WORDS,
                forall|m: int| 0 <= m < wi * 64 && m < max_id ==> #[trigger] self.is_allocated(m),
            decreases DcbPages::WORDS - wi,
        {
            let word = self.allocated[wi];
            if word != !0u64 {
                let bit = lowest_clear_bit(word);
                let id = (wi * 64) as u32 + bit as u32;
                if id < max_id {
                    proof {
                        lemma_bit_index(id as int);
                        assert forall|m: int| 0 <= m < id implies #[trigger] self.is_allocated(m) by {
                            lemma_bit_index(m);
                            if m >= wi * 64 {
                                assert(word_bit(word, (m % 64) as u64));
                            }
                        }
                    }
                    return Ok(id);
                }
                proof {
                    assert forall|m: int| 0 <= m < (wi + 1) * 64 && m < max_id implies #[trigger] self.is_allocated(m) by {
                        lemma_bit_index(m);
                        if m >= wi * 64 {
                            assert(word_bit(word, (m % 64) as u64));
                        }
                    }
                }
            } else {
                proof {
                    lemma_word_full(word);
                    assert forall|m: int| 0 <= m < (wi + 1) * 64 && m < max_id implies #[trigger] self.is_allocated(m) by {
                        lemma_bit_index(m);
                        if m >= wi * 64 {
                            assert(word_bit(word, (m % 64) as u64));
                        }
                    }
                }
            }
            wi = wi + 1;
        }
        Err(DcbError::NoFreeDomains)
    }

    /// Allocate the lowest free domain identity whose control block exists,
    /// and initialize that block for `scheduler_id`.
    pub fn allocate_domain(&mut self, scheduler_id: DomainId) -> (r: Result<DomainId, DcbError>)
        requires
            old(self).wf(),
        ensures
            final(self).wf(),
            final(self).spec_num_pages() == old(self).spec_num_pages(),
            match r {
                Ok(id) => {
                    &&& id.0 < old(self).spec_num_pages() * 32
                    &&& !old(self).is_allocated(id.0 as int)
                    &&& forall|m: int| 0 <= m < id.0 ==> #[trigger] old(self).is_allocated(m)
                    &&& forall|n: int| 0 <= n < DcbPages::MAX_DOMAINS ==>
                        #[trigger] final(self).is_allocated(n) == (n == id.0 || old(self).is_allocated(n))
                    &&& forall|j: DomainId| #[trigger] final(self).dcb(j) == if j == id {
                        Some(fresh_dcb(id, scheduler_id))
                    } else {
                        old(self).dcb(j)
                    }
                },
                Err(e) => {
                    &&& e == DcbError::NoFreeDomains
                    &&& forall|m: int| 0 <= m < old(self).spec_num_pages() * 32 ==> #[trigger] old(self).is_allocated(m)
                    &&& final(self).words() == old(self).words()
                    &&& forall|j: DomainId| #[trigger] final(self).dcb(j) == old(self).dcb(j)
                },
            },
    {
        let id = self.find_free_slot()?;
        let word = (id / 64) as usize;
        let bit = (id % 64) as u64;
        let old_word = self.allocated[word];
        let new_word = old_word | (1u64 << bit);
        proof {
            lemma_word_set_bit(old_word, bit);
            lemma_bit_index(id as int);
            assert forall|n: int| 0 <= n < DcbPages::MAX_DOMAINS implies
                bit_set(self.words().update(word as int, new_word), n) == (n == id || old(self).is_allocated(n)) by {
                lemma_bit_index(n);
                if n / 64 == word as int {
                    assert(new_word == old_word | bit_mask(bit));
                    assert(word_bit(old_word | bit_mask(bit), (n % 64) as u64) == ((n % 64) as u64 == bit
                        || word_bit(old_word, (n % 64) as u64)));
                }
            }
        }
        self.allocated.set(word, new_word);
        let domain_id = DomainId(id);
        let ghost mid = *self;
        match self.get_mut(domain_id) {
            Some(dcb) => {
                *dcb = DomainControlBlock::new(domain_id, scheduler_id);
            },
            None => {
                return Err(DcbError::PageNotAllocated);
            },
        }
        proof {
            assert forall|j: DomainId| #[trigger] self.dcb(j) == if j == domain_id {
                Some(fresh_dcb(domain_id, scheduler_id))
            } else {
                old(self).dcb(j)
            } by {
                vstd::arithmetic::div_mod::lemma_fundamental_div_mod(j.0 as int, 32);
                vstd::arithmetic::div_mod::lemma_fundamental_div_mod(id as int, 32);
                assert(mid.dcb(j) == old(self).dcb(j));
            }
        }
        Ok(domain_id)
    }

    /// Release an allocated domain identity: its control block becomes
    /// inactive with the invalid identity. An identity not allocated is
    /// rejected, changing nothing.
    pub fn release_domain(&mut self, id: DomainId) -> (r: Result<(), DcbError>)
        requires
            old(self).wf(),
            id.0 < DcbPages::MAX_DOMAINS,
        ensures
            final(self).wf(),
            final(self).spec_num_pages() == old(self).spec_num_pages(),
            !old(self).is_allocated(id.0 as int) ==> r == Err::<(), DcbError>(DcbError::NotAllocated)
                && final(self).words() == old(self).words()
                && forall|j: DomainId| #[trigger] final(self).dcb(j) == old(self).dcb(j),
            old(self).is_allocated(id.0 as int) ==> {
                &&& r == Ok::<(), DcbError>(())
                &&& forall|n: int| 0 <= n < DcbPages::MAX_DOMAINS ==>
                    #[trigger] final(self).is_allocated(n) == (n != id.0 && old(self).is_allocated(n))
                &&& forall|j: DomainId| #[trigger] final(self).dcb(j) == if j == id {
                    match old(self).dcb(id) {
                        Some(d) => Some(DomainControlBlock {
                            state: state_code(DomainState::Inactive),
                            id: DomainId(DomainId::INVALID),
                            ..d
                        }),
                        None => None::<DomainControlBlock>,
                    }
                } else {
                    old(self).dcb(j)
                }
            },
    {
        let word = (id.0 / 64) as usize;
        let bit = (id.0 % 64) as u64;
        let old_word = self.allocated[word];
        proof {
            lemma_bit_index(id.0 as int);
        }
        if old_word & (1u64 << bit) == 0 {
            assert(!word_bit(old_word, bit)) by (bit_vector)
                requires
                    old_word & (1u64 << bit) == 0,
                    bit < 64;
            assert(old(self).words()[id.0 as int / 64] == old_word);
            assert(bit == (id.0 as int % 64) as u64);
            assert(!old(self).is_allocated(id.0 as int));
            return Err(DcbError::NotAllocated);
        }
        assert(word_bit(old_word, bit)) by (bit_vector)
            requires
                old_word & (1u64 << bit) != 0,
                bit < 64;
        assert(old(self).words()[id.0 as int / 64] == old_word);
        assert(bit == (id.0 as int % 64) as u64);
        let new_word = old_word & !(1u64 << bit);
        proof {
            lemma_word_clear_bit(old_word, bit);
            assert forall|n: int| 0 <= n < DcbPages::MAX_DOMAINS implies
                bit_set(self.words().update(word as int, new_word), n) == (n != id.0 && old(self).is_allocated(n)) by {
                lemma_bit_index(n);
                if n / 64 == word as int {
                    assert(new_word == old_word & !bit_mask(bit));
                    assert(word_bit(old_word & !bit_mask(bit), (n % 64) as u64) == ((n % 64) as u64 != bit
                        && word_bit(old_word, (n % 64) as u64)));
                }
            }
        }
        self.allocated.set(word, new_word);
        let ghost mid = *self;
        match self.get_mut(id) {
            Some(dcb) => {
                dcb.state = DomainState::Inactive.code();
                dcb.id = DomainId(DomainId::INVALID);
            },
            None => {},
        }
        proof {
            assert forall|j: DomainId| #[trigger] self.dcb(j) == if j == id {
                match old(self).dcb(id) {
                    Some(d) => Some(DomainControlBlock {
                        state: state_code(DomainState::Inactive),
                        id: DomainId(DomainId::INVALID),
                        ..d
                    }),
                    None => None::<DomainControlBlock>,
                }
            } else {
                old(self).dcb(j)
            } by {
                vstd::arithmetic::div_mod::lemma_fundamental_div_mod(j.0 as int, 32);
                vstd::arithmetic::div_mod::lemma_fundamental_div_mod(id.0 as int, 32);
                assert(mid.dcb(j) == old(self).dcb(j));
            }
        }
        Ok(())
    }

    /// The allocated domain identities, in ascending order.
    pub fn iter_allocated(&self) -> (r: Vec<DomainId>)
        requires
            self.wf(),
        ensures
            forall|k: int, l: int| 0 <= k < l < r@.len() ==> r@[k].0 < r@[l].0,
            forall|k: int| 0 <= k < r@.len() ==> (#[trigger] r@[k]).0 < DcbPages::MAX_DOMAINS
                && self.is_allocated(r@[k].0 as int),
            forall|n: int| 0 <= n < DcbPages::MAX_DOMAINS && #[trigger] self.is_allocated(n)
                ==> exists|k: int| 0 <= k < r@.len() && r@[k].0 == n,
    {
        let mut out: Vec<DomainId> = Vec::new();
        let mut n: u32 = 0;
        while (n as usize) < Self::MAX_DOMAINS
            invariant
                self.wf(),
                n <= DcbPages::MAX_DOMAINS,
                forall|k: int, l: int| 0 <= k < l < out@.len() ==> out@[k].0 < out@[l].0,
                forall|k: int| 0 <= k < out@.len() ==> (#[trigger] out@[k]).0 < n && self.is_allocated(out@[k].0 as int),
                forall|m: int| 0 <= m < n && #[trigger] self.is_allocated(m) ==> exists|k: int| 0 <= k < out@.len() && out@[k].0 == m,
            decreases DcbPages::MAX_DOMAINS - n,
        {
            proof {
                lemma_bit_index(n as int);
            }
            let word = self.allocated[(n / 64) as usize];
            let set = (word >> ((n % 64) as u64)) & 1 == 1;
            if set {
                let ghost prev = out@;
                out.push(DomainId(n));
                proof {
                    assert(out@[out@.len() - 1].0 == n);
                    assert forall|m: int| 0 <= m < n + 1 && #[trigger] self.is_allocated(m) implies
                        exists|k: int| 0 <= k < out@.len() && out@[k].0 == m by {
                        if m < n {
                            let k = choose|k: int| 0 <= k < prev.len() && prev[k].0 == m;
                            assert(out@[k] == prev[k]);
                        } else {
                            assert(out@[out@.len() - 1].0 == m);
                        }
                    }
                }
            }
            n = n + 1;
        }
        out
    }

    /// Number of allocated domains.
    pub fn num_allocated(&self) -> (r: usize)
        requires
            self.wf(),
        ensures
            r == self.allocated_below(DcbPages::MAX_DOMAINS as int),
    {
        let mut count: usize = 0;
        let mut n: u32 = 0;
        while (n as usize) < Self::MAX_DOMAINS
            invariant
                self.wf(),
                n <= DcbPages::MAX_DOMAINS,
                count == self.allocated_below(n as int),
                count <= n,
            decreases DcbPages::MAX_DOMAINS - n,
        {
            proof {
                lemma_bit_index(n as int);
            }
            let word = self.allocated[(n / 64) as usize];
            if (word >> ((n % 64) as u64)) & 1 == 1 {
                count = count + 1;
            }
            n = n + 1;
        }
        count
    }
}

} // verus!
