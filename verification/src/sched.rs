//! Minimal kernel scheduling substrate: a bounded FIFO of runnable thread
//! indices.
//!
//! Kernel mechanism only: the kernel needs "run someone else" when a thread
//! blocks, and a place to queue threads whose pending invocations completed.
//! The queue is bounded by the thread-pool slot count, so a completed record
//! can always enqueue its waiter.

use vstd::prelude::*;
use crate::ring::{lemma_filter_prefix_step, lemma_ring_index_injective, ring_index, ring_view};

verus! {

/// Bounded FIFO of runnable thread indices.
pub struct Scheduler {
    queue: Vec<u16>,
    head: usize,
    len: usize,
}

impl Scheduler {
    /// Bounded by the object-pool slot count: every live thread could be
    /// runnable at once, and a wake must never be dropped for lack of queue.
    pub const CAPACITY: usize = 256;

    /// The queued indices, oldest first.
    pub closed spec fn view(&self) -> Seq<u16> {
        ring_view(self.queue@, self.head as int, self.len as int, Self::CAPACITY as int)
    }

    /// Internal consistency of the ring.
    pub closed spec fn wf(&self) -> bool {
        &&& self.queue@.len() == Self::CAPACITY
        &&& self.head < Self::CAPACITY
        &&& self.len <= Self::CAPACITY
    }

    /// An empty queue.
    pub fn new() -> (r: Scheduler)
        ensures
            r.wf(),
            r@ == Seq::<u16>::empty(),
    {
        let mut queue: Vec<u16> = Vec::new();
        while queue.len() < Self::CAPACITY
            invariant
                queue.len() <= Self::CAPACITY,
            decreases Self::CAPACITY - queue.len(),
        {
            queue.push(0);
        }
        let r = Scheduler { queue, head: 0, len: 0 };
        assert(r@ =~= Seq::<u16>::empty());
        r
    }

    /// Number of queued threads.
    pub fn len(&self) -> (r: usize)
        requires
            self.wf(),
        ensures
            r == self@.len(),
    {
        self.len
    }

    /// Whether no thread is queued.
    pub fn is_empty(&self) -> (r: bool)
        requires
            self.wf(),
        ensures
            r == (self@.len() == 0),
    {
        self.len == 0
    }

    /// Enqueue a runnable index at the back. Returns `false` (and changes
    /// nothing) only when the queue is full.
    pub fn push(&mut self, index: u16) -> (r: bool)
        requires
            old(self).wf(),
        ensures
            final(self).wf(),
            r == (old(self)@.len() < Self::CAPACITY),
            r ==> final(self)@ == old(self)@.push(index),
            !r ==> final(self)@ == old(self)@,
    {
        if self.len == Self::CAPACITY {
            return false;
        }
        let back = (self.head + self.len) % Self::CAPACITY;
        assert(back == ring_index(self.head as int, self.len as int, Self::CAPACITY as int));
        let ghost before = self@;
        self.queue.set(back, index);
        self.len = self.len + 1;
        proof {
            assert forall|i: int| 0 <= i < before.len() implies self@[i] == before[i] by {
                lemma_ring_index_injective(self.head as int, i, (self.len - 1) as int, Self::CAPACITY as int);
            }
            assert(self@ =~= before.push(index));
        }
        true
    }

    /// Dequeue the front (oldest) runnable index.
    pub fn pop(&mut self) -> (r: Option<u16>)
        requires
            old(self).wf(),
        ensures
            final(self).wf(),
            old(self)@.len() == 0 ==> r == None::<u16> && final(self)@ == old(self)@,
            old(self)@.len() > 0 ==> r == Some(old(self)@[0]) && final(self)@ == old(self)@.drop_first(),
    {
        if self.len == 0 {
            return None;
        }
        let ghost before = self@;
        let index = self.queue[self.head];
        assert(index == before[0]);
        let old_head = self.head;
        self.queue.set(old_head, 0);
        self.head = (self.head + 1) % Self::CAPACITY;
        self.len = self.len - 1;
        proof {
            assert forall|i: int| 0 <= i < self.len implies self@[i] == before.drop_first()[i] by {
                lemma_ring_index_injective(old_head as int, 0, i + 1, Self::CAPACITY as int);
            }
            assert(self@ =~= before.drop_first());
        }
        Some(index)
    }

    /// Remove every queued entry naming `index` (thread-teardown
    /// cancellation), preserving the FIFO order of the remaining entries.
    /// Returns whether any entry was removed.
    pub fn remove(&mut self, index: u16) -> (r: bool)
        requires
            old(self).wf(),
        ensures
            final(self).wf(),
            final(self)@ == old(self)@.filter(|x: u16| x != index),
            r == old(self)@.contains(index),
    {
        let ghost before = self@;
        let ghost pred = |x: u16| x != index;
        let live = self.len;
        let mut kept: usize = 0;
        let mut removed = false;
        let mut i: usize = 0;
        while i < live
            invariant
                self.wf(),
                self.head == old(self).head,
                self.len == live,
                live == before.len(),
                before == old(self)@,
                0 <= kept <= i <= live,
                pred == (|x: u16| x != index),
                // The compacted prefix holds the kept entries seen so far.
                kept == before.subrange(0, i as int).filter(pred).len(),
                forall|k: int| 0 <= k < kept ==>
                    #[trigger] self.queue@[ring_index(self.head as int, k, Self::CAPACITY as int)]
                        == before.subrange(0, i as int).filter(pred)[k],
                // The unprocessed suffix is untouched.
                forall|k: int| i <= k < live ==>
                    #[trigger] self.queue@[ring_index(self.head as int, k, Self::CAPACITY as int)]
                        == before[k],
                removed == before.subrange(0, i as int).contains(index),
            decreases live - i,
        {
            let slot = (self.head + i) % Self::CAPACITY;
            assert(slot == ring_index(self.head as int, i as int, Self::CAPACITY as int));
            let value = self.queue[slot];
            assert(value == before[i as int]);
            proof {
                lemma_filter_prefix_step(before, i as int, pred);
                assert(before.subrange(0, i as int + 1) =~= before.subrange(0, i as int).push(before[i as int]));
            }
            if value == index {
                removed = true;
                proof {
                    assert(before.subrange(0, i as int + 1)[i as int] == index);
                }
            } else {
                let dst = (self.head + kept) % Self::CAPACITY;
                assert(dst == ring_index(self.head as int, kept as int, Self::CAPACITY as int));
                self.queue.set(dst, value);
                proof {
                    assert forall|k: int| i < k < live implies
                        #[trigger] self.queue@[ring_index(self.head as int, k, Self::CAPACITY as int)] == before[k] by {
                        lemma_ring_index_injective(self.head as int, kept as int, k, Self::CAPACITY as int);
                    }
                    assert forall|k: int| 0 <= k < kept implies
                        #[trigger] self.queue@[ring_index(self.head as int, k, Self::CAPACITY as int)]
                            == before.subrange(0, i as int).filter(pred)[k] by {
                        lemma_ring_index_injective(self.head as int, kept as int, k, Self::CAPACITY as int);
                    }
                }
                kept = kept + 1;
            }
            proof {
                let s0 = before.subrange(0, i as int);
                let s1 = before.subrange(0, i as int + 1);
                assert(s1 =~= s0.push(before[i as int]));
                assert(s1.contains(index) == (s0.contains(index) || before[i as int] == index)) by {
                    if before[i as int] == index {
                        assert(s1[i as int] == index);
                    }
                    if s0.contains(index) {
                        let w = choose|w: int| 0 <= w < s0.len() && s0[w] == index;
                        assert(s1[w] == index);
                    }
                    if s1.contains(index) {
                        let w = choose|w: int| 0 <= w < s1.len() && s1[w] == index;
                        if w < i {
                            assert(s0[w] == index);
                        }
                    }
                }
            }
            i = i + 1;
        }
        proof {
            assert(before.subrange(0, live as int) =~= before);
        }
        // Clear the vacated tail slots and shrink the live region.
        let mut j: usize = kept;
        while j < live
            invariant
                self.wf(),
                self.head == old(self).head,
                kept <= j <= live,
                live <= Self::CAPACITY,
                kept == before.filter(pred).len(),
                forall|k: int| 0 <= k < kept ==>
                    #[trigger] self.queue@[ring_index(self.head as int, k, Self::CAPACITY as int)]
                        == before.filter(pred)[k],
            decreases live - j,
        {
            let slot = (self.head + j) % Self::CAPACITY;
            assert(slot == ring_index(self.head as int, j as int, Self::CAPACITY as int));
            self.queue.set(slot, 0);
            proof {
                assert forall|k: int| 0 <= k < kept implies
                    #[trigger] self.queue@[ring_index(self.head as int, k, Self::CAPACITY as int)]
                        == before.filter(pred)[k] by {
                    lemma_ring_index_injective(self.head as int, j as int, k, Self::CAPACITY as int);
                }
            }
            j = j + 1;
        }
        self.len = kept;
        proof {
            assert(self@ =~= before.filter(pred));
        }
        removed
    }
}

} // verus!
