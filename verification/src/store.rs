//! Address-keyed object stores: carved kernel objects found by the address
//! they were carved at.

use vstd::prelude::*;

verus! {

/// Objects keyed by the address each was carved at.
pub struct AddrStore<T> {
    addrs: Vec<u64>,
    items: Vec<T>,
}

impl<T> AddrStore<T> {
    /// The stored objects by address.
    pub closed spec fn view(&self) -> Map<u64, T> {
        Map::new(|a: u64| self.addrs@.contains(a), |a: u64| self.items@[self.addrs@.index_of(a)])
    }

    /// Parallel arrays with no address stored twice.
    pub closed spec fn wf(&self) -> bool {
        &&& self.addrs@.len() == self.items@.len()
        &&& self.addrs@.no_duplicates()
    }

    proof fn lemma_index(&self, i: int)
        requires
            self.wf(),
            0 <= i < self.addrs@.len(),
        ensures
            self.addrs@.index_of(self.addrs@[i]) == i,
            self.view().contains_key(self.addrs@[i]),
            self.view()[self.addrs@[i]] == self.items@[i],
    {
        assert(self.addrs@.contains(self.addrs@[i]));
        let j = self.addrs@.index_of(self.addrs@[i]);
        assert(0 <= j < self.addrs@.len() && self.addrs@[j] == self.addrs@[i]);
    }

    /// Replacing the object at position `i` replaces the object at its
    /// address and nothing else.
    proof fn lemma_update_view(&self, i: int)
        requires
            self.wf(),
            0 <= i < self.addrs@.len(),
        ensures
            forall|new: AddrStore<T>, item: T|
                #![trigger new.view(), self.items@.update(i, item)]
                new.addrs@ == self.addrs@ && new.items@ == self.items@.update(i, item)
                ==> new.wf() && new@ == self@.insert(self.addrs@[i], item),
    {
        assert forall|new: AddrStore<T>, item: T|
            #![trigger new.view(), self.items@.update(i, item)]
            new.addrs@ == self.addrs@ && new.items@ == self.items@.update(i, item)
            implies new.wf() && new@ == self@.insert(self.addrs@[i], item) by {
            assert forall|a: u64| new@.contains_key(a) implies #[trigger] new@[a] == self@.insert(self.addrs@[i], item)[a] by {
                let j = new.addrs@.index_of(a);
                assert(new.addrs@.contains(a));
                new.lemma_index(j);
                if a != self.addrs@[i] {
                    assert(j != i);
                    self.lemma_index(j);
                }
            }
            assert(new@ =~= self@.insert(self.addrs@[i], item));
        }
    }

    /// An empty store.
    pub fn new() -> (r: AddrStore<T>)
        ensures
            r.wf(),
            r@ == Map::<u64, T>::empty(),
    {
        let r = AddrStore { addrs: Vec::new(), items: Vec::new() };
        assert(r@ =~= Map::<u64, T>::empty());
        r
    }

    /// The position of the object carved at `addr`, if any.
    fn find(&self, addr: u64) -> (r: Option<usize>)
        requires
            self.wf(),
        ensures
            match r {
                Some(i) => i < self.addrs@.len() && self.addrs@[i as int] == addr && self@.contains_key(addr)
                    && self@[addr] == self.items@[i as int],
                None => !self@.contains_key(addr),
            },
    {
        let mut i: usize = 0;
        while i < self.addrs.len()
            invariant
                self.wf(),
                i <= self.addrs@.len(),
                forall|j: int| 0 <= j < i ==> self.addrs@[j] != addr,
            decreases self.addrs@.len() - i,
        {
            if self.addrs[i] == addr {
                proof {
                    self.lemma_index(i as int);
                }
                return Some(i);
            }
            i = i + 1;
        }
        None
    }

    /// Whether an object was carved at `addr`.
    pub fn contains(&self, addr: u64) -> (r: bool)
        requires
            self.wf(),
        ensures
            r == self@.contains_key(addr),
    {
        self.find(addr).is_some()
    }

    /// The object carved at `addr`, if any.
    pub fn get(&self, addr: u64) -> (r: Option<&T>)
        requires
            self.wf(),
        ensures
            self@.contains_key(addr) ==> r == Some(&self@[addr]),
            !self@.contains_key(addr) ==> r is None,
    {
        match self.find(addr) {
            Some(i) => Some(&self.items[i]),
            None => None,
        }
    }

    /// Exclusive access to the object carved at `addr`, if any; whatever the
    /// caller leaves there is what the store then holds at `addr`.
    pub fn get_mut(&mut self, addr: u64) -> (r: Option<&mut T>)
        requires
            old(self).wf(),
        ensures
            final(self).wf(),
            old(self)@.contains_key(addr) ==> (r matches Some(x) && *x == old(self)@[addr]
                && final(self)@ == old(self)@.insert(addr, *final(x))),
            !old(self)@.contains_key(addr) ==> r is None && final(self)@ == old(self)@,
    {
        match self.find(addr) {
            Some(i) => {
                proof {
                    self.lemma_update_view(i as int);
                }
                Some(&mut self.items[i])
            },
            None => None,
        }
    }

    /// Store `item` at `addr`, replacing any object already there.
    pub fn insert(&mut self, addr: u64, item: T)
        requires
            old(self).wf(),
        ensures
            final(self).wf(),
            final(self)@ == old(self)@.insert(addr, item),
    {
        match self.find(addr) {
            Some(i) => {
                self.items.set(i, item);
                proof {
                    assert forall|a: u64| #[trigger] self@.contains_key(a) == old(self)@.insert(addr, item).contains_key(a) by {}
                    assert forall|a: u64| self@.contains_key(a) implies #[trigger] self@[a] == old(self)@.insert(addr, item)[a] by {
                        let j = self.addrs@.index_of(a);
                        assert(self.addrs@.contains(a));
                        self.lemma_index(j);
                        if a != addr {
                            assert(j != i);
                        }
                    }
                    assert(self@ =~= old(self)@.insert(addr, item));
                }
            },
            None => {
                self.addrs.push(addr);
                self.items.push(item);
                proof {
                    assert forall|a: u64| #[trigger] self@.contains_key(a) == old(self)@.insert(addr, item).contains_key(a) by {
                        if old(self).addrs@.contains(a) {
                            let k = old(self).addrs@.index_of(a);
                            assert(self.addrs@[k] == a);
                        }
                        if self.addrs@.contains(a) && a != addr {
                            let k = self.addrs@.index_of(a);
                            assert(old(self).addrs@[k] == a);
                        }
                        if a == addr {
                            assert(self.addrs@[self.addrs@.len() - 1] == a);
                        }
                    }
                    assert forall|a: u64| self@.contains_key(a) implies #[trigger] self@[a] == old(self)@.insert(addr, item)[a] by {
                        let j = self.addrs@.index_of(a);
                        assert(self.addrs@.contains(a));
                        self.lemma_index(j);
                        if a != addr {
                            assert(old(self).addrs@.contains(a)) by {
                                assert(old(self).addrs@[j] == a);
                            }
                            old(self).lemma_index(old(self).addrs@.index_of(a));
                        }
                    }
                    assert(self@ =~= old(self)@.insert(addr, item));
                }
            },
        }
    }
}

} // verus!
