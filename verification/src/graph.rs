//! The link graph: which entry names which date, read in both directions.
//!
//! The graph is keyed by dates, not by entries: a date that is named need
//! not have an entry of its own.

use vstd::prelude::*;
use crate::data::date::is_ordinal;
use crate::data::date::lemma_ordinal_orders;
use crate::data::date::Date;
use crate::index::LinkIndex;
use crate::links::dates_ascend;
use crate::links::dates_of_ordinals;
use crate::links::dates_wf;
use crate::ordered::strictly_increasing;

verus! {

/// Every number that `index` holds, as a key or in a set, is the ordinal of
/// a day of the calendar.
pub open spec fn holds_ordinals(index: LinkIndex) -> bool {
    &&& forall|k: u32| #[trigger] index.has_key(k) ==> is_ordinal(k)
    &&& forall|k: u32, v: u32| #[trigger] index.links(k, v) ==> is_ordinal(v)
}

/// A date that is named, with the dates of the entries that name it.
pub struct Backlinks {
    /// The date that is named.
    pub date: Date,
    /// The dates of the entries that name it, the earliest first.
    pub sources: Vec<Date>,
}

/// The dates of the set of the key `k` of `index`, the earliest first, and
/// none where `k` is no key.
pub fn dates_of_key(index: &LinkIndex, k: u32) -> (r: Vec<Date>)
    requires
        index.wf(),
        holds_ordinals(*index),
    ensures
        dates_wf(r@),
        dates_ascend(r@),
        forall|b: Date| b.wf() ==> (r@.contains(b) <==> index.links(k, b.spec_ordinal() as u32)),
{
    proof {
        index.lemma_wf();
    }
    match index.find(k) {
        Some(i) => {
            let set = index.set_at(i);
            proof {
                assert forall|o: u32| #[trigger] set@.contains(o) implies is_ordinal(o) by {
                    assert(index.spec_set(i as int).contains(o));
                    assert(index.links(k, o));
                }
            }
            let r = dates_of_ordinals(set);
            proof {
                assert forall|b: Date| b.wf() implies (r@.contains(b) <==> index.links(
                    k,
                    b.spec_ordinal() as u32,
                )) by {
                    b.lemma_wf();
                    let bo = b.spec_ordinal() as u32;
                    if r@.contains(b) {
                        let j = choose|j: int| 0 <= j < r@.len() && r@[j] == b;
                        assert(set@[j] == bo);
                        assert(index.spec_set(i as int).contains(bo));
                    }
                    if index.links(k, bo) {
                        let i2 = choose|i2: int|
                            0 <= i2 < index.spec_keys().len() && index.spec_keys()[i2] == k && (
                            #[trigger] index.spec_set(i2)).contains(bo);
                        assert(i2 == i);
                        let j = choose|j: int| 0 <= j < set@.len() && set@[j] == bo;
                        lemma_ordinal_orders(r@[j], b);
                        assert(r@[j] == b);
                    }
                }
            }
            r
        },
        None => {
            let r: Vec<Date> = Vec::new();
            proof {
                assert forall|b: Date| b.wf() implies !index.links(k, b.spec_ordinal() as u32) by {
                    if index.links(k, b.spec_ordinal() as u32) {
                        let i2 = choose|i2: int|
                            0 <= i2 < index.spec_keys().len() && index.spec_keys()[i2] == k && (
                            #[trigger] index.spec_set(i2)).contains(b.spec_ordinal() as u32);
                        assert(index.spec_keys().contains(k));
                    }
                }
            }
            r
        },
    }
}

/// The dates that entries name, and for each date the entries that name it.
pub struct LinkGraph {
    outbound: LinkIndex,
    inbound: LinkIndex,
}

impl LinkGraph {
    /// Both directions are in order and hold dates, and they hold the same
    /// links: one from a source to its target, the other from the target to
    /// its source.
    pub closed spec fn wf(&self) -> bool {
        &&& self.outbound.wf()
        &&& self.inbound.wf()
        &&& holds_ordinals(self.outbound)
        &&& holds_ordinals(self.inbound)
        &&& forall|a: u32, b: u32| #[trigger]
            self.outbound.links(a, b) <==> self.inbound.links(b, a)
        &&& forall|b: u32| #[trigger]
            self.inbound.has_key(b) ==> exists|a: u32| self.inbound.links(b, a)
    }

    /// An entry of the date `a` was added.
    pub closed spec fn has_entry(&self, a: Date) -> bool {
        self.outbound.has_key(a.spec_ordinal() as u32)
    }

    /// The entry of the date `a` names the date `b`.
    pub closed spec fn refers(&self, a: Date, b: Date) -> bool {
        self.outbound.links(a.spec_ordinal() as u32, b.spec_ordinal() as u32)
    }

    /// The date `b` is named by the entry of the date `a`.
    pub closed spec fn referred_by(&self, b: Date, a: Date) -> bool {
        self.inbound.links(b.spec_ordinal() as u32, a.spec_ordinal() as u32)
    }

    /// Some entry names the date `b`.
    pub open spec fn is_named(&self, b: Date) -> bool {
        exists|a: Date| a.wf() && #[trigger] self.referred_by(b, a)
    }

    /// The two directions agree: `a` names `b` exactly when `b` is named by
    /// `a`, whether or not `b` has an entry.
    pub proof fn lemma_symmetry(&self, a: Date, b: Date)
        requires
            self.wf(),
        ensures
            self.refers(a, b) <==> self.referred_by(b, a),
    {
    }

    /// The graph without entries.
    pub fn new() -> (g: LinkGraph)
        ensures
            g.wf(),
            forall|a: Date| !g.has_entry(a),
            forall|a: Date, b: Date| !g.refers(a, b),
    {
        let g = LinkGraph { outbound: LinkIndex::new(), inbound: LinkIndex::new() };
        proof {
            assert forall|a: u32, b: u32| !(#[trigger] g.outbound.links(a, b)) by {}
            assert forall|a: u32, b: u32| !(#[trigger] g.inbound.links(a, b)) by {}
            assert forall|a: u32| !(#[trigger] g.outbound.has_key(a)) by {}
            assert forall|a: u32| !(#[trigger] g.inbound.has_key(a)) by {}
        }
        g
    }

    /// Adds the entry of the date `source`, whose body names the dates
    /// `links`.
    pub fn add_entry(&mut self, source: Date, links: &Vec<Date>)
        requires
            old(self).wf(),
        ensures
            final(self).wf(),
            forall|a: Date|
                a.wf() ==> (#[trigger] final(self).has_entry(a) <==> (a == source || old(
                    self,
                ).has_entry(a))),
            forall|a: Date, b: Date|
                a.wf() && b.wf() ==> (#[trigger] final(self).refers(a, b) <==> ((a == source
                    && links@.contains(b)) || old(self).refers(a, b))),
    {
        let s = source.ordinal();
        self.outbound.touch(s);
        let mut i: usize = 0;
        while i < links.len()
            invariant
                i <= links.len(),
                source.wf(),
                s == source.spec_ordinal(),
                self.wf(),
                forall|j: int| 0 <= j < i ==> (#[trigger] links@[j]).wf(),
                forall|k: u32| #[trigger]
                    self.outbound.has_key(k) <==> (k == s || old(self).outbound.has_key(k)),
                forall|a: u32, b: u32| #[trigger]
                    self.outbound.links(a, b) <==> ((a == s && exists|j: int|
                        0 <= j < i && (#[trigger] links@[j]).spec_ordinal() == b) || old(
                        self,
                    ).outbound.links(a, b)),
            decreases links.len() - i,
        {
            let t = links[i].ordinal();
            let ghost before = *self;
            self.outbound.add(s, t);
            self.inbound.add(t, s);
            proof {
                assert(links@[i as int].spec_ordinal() == t);
                assert forall|a: u32, b: u32| #[trigger]
                    self.outbound.links(a, b) <==> ((a == s && exists|j: int|
                        0 <= j < i + 1 && (#[trigger] links@[j]).spec_ordinal() == b) || old(
                        self,
                    ).outbound.links(a, b)) by {
                    if a == s && b == t {
                        assert(0 <= i < i + 1 && links@[i as int].spec_ordinal() == b);
                    }
                    if a == s && exists|j: int|
                        0 <= j < i + 1 && (#[trigger] links@[j]).spec_ordinal() == b {
                        let j = choose|j: int|
                            0 <= j < i + 1 && (#[trigger] links@[j]).spec_ordinal() == b;
                        if j < i {
                            assert(before.outbound.links(a, b));
                        }
                    }
                    if before.outbound.links(a, b) {
                        if a == s && exists|j: int|
                            0 <= j < i && (#[trigger] links@[j]).spec_ordinal() == b {
                            let j = choose|j: int|
                                0 <= j < i && (#[trigger] links@[j]).spec_ordinal() == b;
                            assert(0 <= j < i + 1 && links@[j].spec_ordinal() == b);
                        }
                    }
                }
                assert(is_ordinal(s));
                assert(is_ordinal(t));
                assert forall|b: u32| #[trigger] self.inbound.has_key(b) implies exists|a: u32|
                    self.inbound.links(b, a) by {
                    if b == t {
                        assert(self.inbound.links(t, s));
                    } else {
                        let a = choose|a: u32| before.inbound.links(b, a);
                        assert(self.inbound.links(b, a));
                    }
                }
            }
            i = i + 1;
        }
        proof {
            assert forall|a: Date, b: Date| a.wf() && b.wf() implies (#[trigger] self.refers(a, b)
                <==> ((a == source && links@.contains(b)) || old(self).refers(a, b))) by {
                lemma_ordinal_orders(a, source);
                a.lemma_wf();
                b.lemma_wf();
                let ao = a.spec_ordinal() as u32;
                let bo = b.spec_ordinal() as u32;
                if a == source && links@.contains(b) {
                    let j = choose|j: int| 0 <= j < links@.len() && links@[j] == b;
                    assert(0 <= j < i && links@[j].spec_ordinal() == bo);
                }
                if ao == s && exists|j: int|
                    0 <= j < i && (#[trigger] links@[j]).spec_ordinal() == bo {
                    let j = choose|j: int|
                        0 <= j < i && (#[trigger] links@[j]).spec_ordinal() == bo;
                    lemma_ordinal_orders(links@[j], b);
                    assert(links@[j] == b);
                }
            }
            assert forall|a: Date| a.wf() implies (#[trigger] self.has_entry(a) <==> (a == source
                || old(self).has_entry(a))) by {
                lemma_ordinal_orders(a, source);
                a.lemma_wf();
            }
        }
    }

    /// The dates that the entry of `date` names, the earliest first.
    pub fn outbound(&self, date: Date) -> (r: Vec<Date>)
        requires
            self.wf(),
        ensures
            dates_wf(r@),
            dates_ascend(r@),
            forall|b: Date| b.wf() ==> (r@.contains(b) <==> self.refers(date, b)),
    {
        dates_of_key(&self.outbound, date.ordinal())
    }

    /// The dates of the entries that name `date`, the earliest first.
    pub fn inbound(&self, date: Date) -> (r: Vec<Date>)
        requires
            self.wf(),
        ensures
            dates_wf(r@),
            dates_ascend(r@),
            forall|a: Date| a.wf() ==> (r@.contains(a) <==> self.referred_by(date, a)),
    {
        dates_of_key(&self.inbound, date.ordinal())
    }

    /// Every date that some entry names, the earliest first, each with the
    /// dates of the entries that name it.
    pub fn backlinks(&self) -> (r: Vec<Backlinks>)
        requires
            self.wf(),
        ensures
            forall|i: int, j: int|
                0 <= i < j < r@.len() ==> r@[i].date.spec_ordinal() < r@[j].date.spec_ordinal(),
            forall|i: int| 0 <= i < r@.len() ==> (#[trigger] r@[i]).date.wf(),
            forall|i: int| 0 <= i < r@.len() ==> dates_wf((#[trigger] r@[i]).sources@),
            forall|i: int| 0 <= i < r@.len() ==> dates_ascend((#[trigger] r@[i]).sources@),
            forall|i: int, a: Date|
                0 <= i < r@.len() && a.wf() ==> ((#[trigger] r@[i]).sources@.contains(a)
                    <==> #[trigger] self.referred_by(r@[i].date, a)),
            forall|b: Date|
                b.wf() && #[trigger] self.is_named(b) ==> exists|i: int|
                    0 <= i < r@.len() && (#[trigger] r@[i]).date == b,
            forall|i: int| 0 <= i < r@.len() ==> self.is_named((#[trigger] r@[i]).date),
    {
        let mut r: Vec<Backlinks> = Vec::new();
        let n = self.inbound.len();
        let mut i: usize = 0;
        proof {
            self.inbound.lemma_wf();
        }
        while i < n
            invariant
                i <= n,
                n == self.inbound.spec_keys().len(),
                self.wf(),
                strictly_increasing(self.inbound.spec_keys()),
                r@.len() == i,
                forall|k: int| 0 <= k < i ==> (#[trigger] r@[k]).date.wf(),
                forall|k: int|
                    0 <= k < i ==> (#[trigger] r@[k]).date.spec_ordinal()
                        == self.inbound.spec_keys()[k],
                forall|k: int| 0 <= k < i ==> dates_wf((#[trigger] r@[k]).sources@),
                forall|k: int| 0 <= k < i ==> dates_ascend((#[trigger] r@[k]).sources@),
                forall|k: int, a: Date|
                    0 <= k < i && a.wf() ==> ((#[trigger] r@[k]).sources@.contains(a)
                        <==> #[trigger] self.referred_by(r@[k].date, a)),
            decreases n - i,
        {
            let key = self.inbound.key_at(i);
            assert(self.inbound.spec_keys().contains(key));
            assert(self.inbound.has_key(key));
            match Date::from_ordinal(key) {
                Some(date) => {
                    let sources = dates_of_key(&self.inbound, key);
                    r.push(Backlinks { date, sources });
                },
                None => {
                    assert(false);
                },
            }
            i = i + 1;
        }
        proof {
            assert forall|b: Date| b.wf() && #[trigger] self.is_named(b) implies exists|i: int|
                0 <= i < r@.len() && (#[trigger] r@[i]).date == b by {
                let a = choose|a: Date| a.wf() && #[trigger] self.referred_by(b, a);
                let bo = b.spec_ordinal() as u32;
                let ao = a.spec_ordinal() as u32;
                b.lemma_wf();
                let k = choose|k: int|
                    0 <= k < self.inbound.spec_keys().len() && self.inbound.spec_keys()[k] == bo
                        && (#[trigger] self.inbound.spec_set(k)).contains(ao);
                lemma_ordinal_orders(r@[k].date, b);
                assert(r@[k].date == b);
            }
            assert forall|i: int| 0 <= i < r@.len() implies self.is_named(
                (#[trigger] r@[i]).date,
            ) by {
                let bo = self.inbound.spec_keys()[i];
                assert(self.inbound.spec_keys().contains(bo));
                assert(self.inbound.has_key(bo));
                let ao = choose|ao: u32| self.inbound.links(bo, ao);
                assert(is_ordinal(ao));
                let a = choose|a: Date| a.wf() && #[trigger] a.spec_ordinal() == ao;
                assert(self.referred_by(r@[i].date, a));
            }
        }
        r
    }
}

} // verus!
