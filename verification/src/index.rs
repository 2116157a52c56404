//! An ordered index from numbers to ordered sets of numbers.
//!
//! The keys are kept smallest first, and so is each set, so that what the
//! index holds comes out in one order whatever the order in which it went in.

use vstd::prelude::*;
use crate::ordered::insert;
use crate::ordered::lower_bound;
use crate::ordered::strictly_increasing;

verus! {

/// Keys, each with the set of numbers it leads to.
pub struct LinkIndex {
    keys: Vec<u32>,
    sets: Vec<Vec<u32>>,
}

impl LinkIndex {
    /// The keys are in order, each has its set, and each set is in order.
    pub closed spec fn wf(&self) -> bool {
        &&& strictly_increasing(self.keys@)
        &&& self.sets@.len() == self.keys@.len()
        &&& forall|i: int| 0 <= i < self.sets@.len() ==> strictly_increasing(#[trigger] self.sets@[i]@)
    }

    /// The keys, smallest first.
    pub closed spec fn spec_keys(&self) -> Seq<u32> {
        self.keys@
    }

    /// The set of the key at index `i`, smallest first.
    pub closed spec fn spec_set(&self, i: int) -> Seq<u32> {
        self.sets@[i]@
    }

    /// `k` is a key of the index.
    pub open spec fn has_key(&self, k: u32) -> bool {
        self.spec_keys().contains(k)
    }

    /// The set of the key `k` holds `v`.
    pub open spec fn links(&self, k: u32, v: u32) -> bool {
        exists|i: int|
            0 <= i < self.spec_keys().len() && self.spec_keys()[i] == k && (
            #[trigger] self.spec_set(i)).contains(v)
    }

    /// What `wf` says of the keys and the sets.
    pub proof fn lemma_wf(&self)
        requires
            self.wf(),
        ensures
            strictly_increasing(self.spec_keys()),
            forall|i: int|
                0 <= i < self.spec_keys().len() ==> strictly_increasing(#[trigger] self.spec_set(i)),
    {
    }

    /// The index without keys.
    pub fn new() -> (r: LinkIndex)
        ensures
            r.wf(),
            r.spec_keys().len() == 0,
    {
        LinkIndex { keys: Vec::new(), sets: Vec::new() }
    }

    /// The number of keys.
    pub fn len(&self) -> (n: usize)
        requires
            self.wf(),
        ensures
            n == self.spec_keys().len(),
    {
        self.keys.len()
    }

    /// The key at index `i`.
    pub fn key_at(&self, i: usize) -> (k: u32)
        requires
            self.wf(),
            i < self.spec_keys().len(),
        ensures
            k == self.spec_keys()[i as int],
    {
        self.keys[i]
    }

    /// The set of the key at index `i`.
    pub fn set_at(&self, i: usize) -> (s: &Vec<u32>)
        requires
            self.wf(),
            i < self.spec_keys().len(),
        ensures
            s@ == self.spec_set(i as int),
            strictly_increasing(s@),
    {
        &self.sets[i]
    }

    /// The index of the key `k`, if it is a key.
    pub fn find(&self, k: u32) -> (r: Option<usize>)
        requires
            self.wf(),
        ensures
            r is Some <==> self.has_key(k),
            r matches Some(i) ==> i < self.spec_keys().len() && self.spec_keys()[i as int] == k,
    {
        let i = lower_bound(&self.keys, k);
        if i < self.keys.len() && self.keys[i] == k {
            Some(i)
        } else {
            assert forall|j: int| 0 <= j < self.keys@.len() implies self.keys@[j] != k by {
                if j >= i && i < self.keys@.len() {
                    assert(self.keys@[i as int] > k);
                }
            }
            None
        }
    }

    /// Makes `k` a key, with the empty set, unless it is one already.
    /// The result is the index of `k`.
    pub fn touch(&mut self, k: u32) -> (i: usize)
        requires
            old(self).wf(),
        ensures
            final(self).wf(),
            i < final(self).spec_keys().len(),
            final(self).spec_keys()[i as int] == k,
            forall|x: u32| #[trigger] final(self).has_key(x) <==> (x == k || old(self).has_key(x)),
            forall|x: u32, y: u32| #[trigger] final(self).links(x, y) <==> old(self).links(x, y),
    {
        let i = lower_bound(&self.keys, k);
        if i < self.keys.len() && self.keys[i] == k {
            assert(self.keys@[i as int] == k);
            return i;
        }
        let ghost keys0 = self.keys@;
        let ghost sets0 = self.sets@;
        assert forall|j: int| 0 <= j < keys0.len() implies keys0[j] != k by {
            if j >= i && i < keys0.len() {
                assert(keys0[i as int] > k);
            }
        }
        self.keys.insert(i, k);
        self.sets.insert(i, Vec::new());
        proof {
            let keys1 = self.keys@;
            let sets1 = self.sets@;
            assert(keys1 == keys0.insert(i as int, k));
            assert(sets1.len() == keys1.len());
            assert forall|a: int, b: int| 0 <= a < b < keys1.len() implies keys1[a] < keys1[b] by {
                if a < i && b > i {
                    assert(keys1[a] == keys0[a]);
                    assert(keys1[b] == keys0[b - 1]);
                } else if a > i {
                    assert(keys1[a] == keys0[a - 1]);
                    assert(keys1[b] == keys0[b - 1]);
                }
            }
            assert forall|j: int| 0 <= j < sets1.len() implies strictly_increasing(
                #[trigger] sets1[j]@,
            ) by {
                if j < i {
                    assert(sets1[j] == sets0[j]);
                } else if j > i {
                    assert(sets1[j] == sets0[j - 1]);
                }
            }
            assert forall|x: u32| #[trigger] self.has_key(x) <==> (x == k || old(self).has_key(
                x,
            )) by {
                if keys1.contains(x) {
                    let j = choose|j: int| 0 <= j < keys1.len() && keys1[j] == x;
                    if j < i {
                        assert(keys0[j] == x);
                    } else if j > i {
                        assert(keys0[j - 1] == x);
                    }
                }
                if x == k {
                    assert(keys1[i as int] == k);
                }
                if keys0.contains(x) {
                    let j = choose|j: int| 0 <= j < keys0.len() && keys0[j] == x;
                    if j < i {
                        assert(keys1[j] == x);
                    } else {
                        assert(keys1[j + 1] == x);
                    }
                }
            }
            assert forall|x: u32, y: u32| #[trigger] self.links(x, y) <==> old(self).links(
                x,
                y,
            ) by {
                if self.links(x, y) {
                    let j = choose|j: int|
                        0 <= j < keys1.len() && keys1[j] == x && (#[trigger] self.spec_set(
                            j,
                        )).contains(y);
                    if j < i {
                        assert(old(self).spec_set(j) == self.spec_set(j));
                        assert(keys0[j] == x);
                    } else if j > i {
                        assert(old(self).spec_set(j - 1) == self.spec_set(j));
                        assert(keys0[j - 1] == x);
                    } else {
                        assert(self.spec_set(j).len() == 0);
                    }
                }
                if old(self).links(x, y) {
                    let j = choose|j: int|
                        0 <= j < keys0.len() && keys0[j] == x && (#[trigger] old(self).spec_set(
                            j,
                        )).contains(y);
                    if j < i {
                        assert(self.spec_set(j) == old(self).spec_set(j));
                        assert(keys1[j] == x);
                    } else {
                        assert(self.spec_set(j + 1) == old(self).spec_set(j));
                        assert(keys1[j + 1] == x);
                    }
                }
            }
        }
        i
    }

    /// Adds `v` to the set of the key `k`, which becomes a key if it was
    /// none.
    pub fn add(&mut self, k: u32, v: u32)
        requires
            old(self).wf(),
        ensures
            final(self).wf(),
            forall|x: u32| #[trigger] final(self).has_key(x) <==> (x == k || old(self).has_key(x)),
            forall|x: u32, y: u32| #[trigger]
                final(self).links(x, y) <==> ((x == k && y == v) || old(self).links(x, y)),
    {
        let i = self.touch(k);
        let ghost mid = *self;
        let ghost keys = self.keys@;
        let ghost sets0 = self.sets@;
        let mut set = self.sets.remove(i);
        let ghost set0 = set@;
        insert(&mut set, v);
        let ghost set1 = set@;
        self.sets.insert(i, set);
        proof {
            let sets1 = self.sets@;
            assert(self.keys@ == keys);
            assert(sets1.len() == sets0.len());
            assert(sets1[i as int]@ == set1);
            assert(sets0[i as int]@ == set0);
            assert forall|j: int| 0 <= j < sets1.len() && j != i implies sets1[j] == sets0[j] by {}
            assert forall|j: int| 0 <= j < sets1.len() implies strictly_increasing(
                #[trigger] sets1[j]@,
            ) by {
                if j != i {
                    assert(sets1[j] == sets0[j]);
                }
            }
            assert forall|x: u32, y: u32| #[trigger] self.links(x, y) <==> ((x == k && y == v)
                || mid.links(x, y)) by {
                if self.links(x, y) {
                    let j = choose|j: int|
                        0 <= j < keys.len() && keys[j] == x && (#[trigger] self.spec_set(
                            j,
                        )).contains(y);
                    if j != i {
                        assert(mid.spec_set(j) == self.spec_set(j));
                    } else {
                        if y != v {
                            assert(set0.contains(y));
                            assert(mid.spec_set(i as int).contains(y));
                        }
                    }
                }
                if x == k && y == v {
                    assert(set1.contains(v));
                    assert(self.spec_set(i as int).contains(y));
                }
                if mid.links(x, y) {
                    let j = choose|j: int|
                        0 <= j < keys.len() && keys[j] == x && (#[trigger] mid.spec_set(
                            j,
                        )).contains(y);
                    if j != i {
                        assert(self.spec_set(j) == mid.spec_set(j));
                    } else {
                        assert(set1.contains(y));
                        assert(self.spec_set(i as int).contains(y));
                    }
                }
            }
            assert forall|x: u32| #[trigger] self.has_key(x) <==> mid.has_key(x) by {}
        }
    }
}

} // verus!
