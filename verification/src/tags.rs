//! Tag counts: for each tag, the number of entries that carry it.
//!
//! An entry counts once for a tag, however often the tag stands in its
//! list. The tags come out in the order of the dictionary.

use vstd::prelude::*;
use crate::lexical::compare;
use crate::lexical::lemma_lex_transitive;
use crate::lexical::lemma_lex_trichotomy;
use crate::lexical::lex_less;
use crate::lexical::names_ascend;
use crate::lexical::Order;
use crate::text::chars_of;
use crate::text::string_of;

verus! {

/// The texts of a list of strings.
pub open spec fn texts(v: Seq<String>) -> Seq<Seq<char>> {
    Seq::new(v.len(), |i: int| v[i]@)
}

/// The number of the tag lists of `entries` that hold `name`.
pub open spec fn tag_count(entries: Seq<Seq<Seq<char>>>, name: Seq<char>) -> nat
    decreases entries.len(),
{
    if entries.len() == 0 {
        0
    } else {
        let before = tag_count(entries.drop_last(), name);
        if entries.last().contains(name) {
            before + 1
        } else {
            before
        }
    }
}

/// No tag is carried by more entries than there are.
pub proof fn lemma_tag_count_bound(entries: Seq<Seq<Seq<char>>>, name: Seq<char>)
    ensures
        tag_count(entries, name) <= entries.len(),
    decreases entries.len(),
{
    if entries.len() > 0 {
        lemma_tag_count_bound(entries.drop_last(), name);
    }
}

/// The count that stands beside `name` in the two lists, or 0 where `name`
/// is not among the names.
pub open spec fn count_in(names: Seq<Seq<char>>, counts: Seq<u32>, name: Seq<char>) -> nat {
    if names.contains(name) {
        counts[choose|i: int| 0 <= i < names.len() && names[i] == name] as nat
    } else {
        0
    }
}

/// In names that ascend, a name stands at one index only.
pub proof fn lemma_count_at(names: Seq<Seq<char>>, counts: Seq<u32>, i: int)
    requires
        names_ascend(names),
        0 <= i < names.len(),
    ensures
        count_in(names, counts, names[i]) == counts[i],
{
    assert(names.contains(names[i]));
    let j = choose|j: int| 0 <= j < names.len() && names[j] == names[i];
    lemma_lex_trichotomy(names[i], names[j]);
    if j < i {
        assert(lex_less(names[j], names[i]));
    }
    if i < j {
        assert(lex_less(names[i], names[j]));
    }
}

/// A tag with the number of entries that carry it.
pub struct TagCount {
    /// The tag.
    pub name: String,
    /// The number of entries that carry the tag.
    pub count: u32,
}

/// The tags of the entries seen so far, each with its count.
pub struct TagCounter {
    names: Vec<Vec<char>>,
    counts: Vec<u32>,
    seen: Ghost<Seq<Seq<Seq<char>>>>,
}

impl TagCounter {
    /// The names that the counter holds, in its order.
    pub closed spec fn spec_names(&self) -> Seq<Seq<char>> {
        Seq::new(self.names@.len(), |i: int| self.names@[i]@)
    }

    /// The counts, each beside its name.
    pub closed spec fn spec_counts(&self) -> Seq<u32> {
        self.counts@
    }

    /// The tag lists of the entries that were added, in the order in which
    /// they were added.
    pub closed spec fn seen(&self) -> Seq<Seq<Seq<char>>> {
        self.seen@
    }

    /// The names ascend, and each has a count beside it that is not 0.
    pub closed spec fn lists_wf(&self) -> bool {
        &&& names_ascend(self.spec_names())
        &&& self.counts@.len() == self.names@.len()
        &&& forall|i: int| 0 <= i < self.counts@.len() ==> #[trigger] self.counts@[i] > 0
    }

    /// The count that stands beside `name`, or 0.
    pub open spec fn count_of(&self, name: Seq<char>) -> nat {
        count_in(self.spec_names(), self.spec_counts(), name)
    }

    /// The lists are in order, and every tag has the count of the entries
    /// seen that carry it.
    pub open spec fn wf(&self) -> bool {
        &&& self.lists_wf()
        &&& forall|name: Seq<char>| #[trigger] self.count_of(name) == tag_count(self.seen(), name)
    }

    /// The counter that has seen no entry.
    pub fn new() -> (r: TagCounter)
        ensures
            r.wf(),
            r.seen().len() == 0,
    {
        let r = TagCounter { names: Vec::new(), counts: Vec::new(), seen: Ghost(Seq::empty()) };
        assert(r.spec_names().len() == 0);
        r
    }

    /// Counts one more entry for `name`.
    fn bump(&mut self, name: Vec<char>)
        requires
            old(self).lists_wf(),
            old(self).count_of(name@) < u32::MAX,
        ensures
            final(self).lists_wf(),
            final(self).seen() == old(self).seen(),
            forall|n: Seq<char>| #[trigger]
                final(self).count_of(n) == old(self).count_of(n) + if n == name@ {
                    1nat
                } else {
                    0nat
                },
    {
        let ghost names0 = self.spec_names();
        let ghost counts0 = self.counts@;
        let (i, found) = locate(&self.names, &name);
        assert(names0 == names_of(self.names@));
        if found {
            proof {
                lemma_count_at(names0, counts0, i as int);
            }
            let c = self.counts[i];
            self.counts.set(i, c + 1);
            proof {
                let counts1 = self.counts@;
                assert(self.spec_names() == names0);
                assert forall|n: Seq<char>| #[trigger]
                    self.count_of(n) == old(self).count_of(n) + if n == name@ {
                        1nat
                    } else {
                        0nat
                    } by {
                    if names0.contains(n) {
                        let j = choose|j: int| 0 <= j < names0.len() && names0[j] == n;
                        lemma_count_at(names0, counts0, j);
                        lemma_count_at(names0, counts1, j);
                        if j == i {
                        } else {
                            lemma_count_at(names0, counts0, i as int);
                            lemma_lex_trichotomy(names0[j], names0[i as int]);
                            if j < i {
                                assert(lex_less(names0[j], names0[i as int]));
                            } else {
                                assert(lex_less(names0[i as int], names0[j]));
                            }
                            assert(names0[j] != names0[i as int]);
                        }
                    }
                }
            }
        } else {
            proof {
                assert forall|j: int| 0 <= j < names0.len() implies names0[j] != name@ by {
                    lemma_lex_trichotomy(names0[j], name@);
                    if j > i {
                        lemma_lex_transitive(name@, names0[i as int], names0[j]);
                    }
                }
            }
            let ghost text = name@;
            self.names.insert(i, name);
            self.counts.insert(i, 1);
            proof {
                let names1 = self.spec_names();
                let counts1 = self.counts@;
                assert(names1 =~= names0.insert(i as int, text));
                assert(counts1 == counts0.insert(i as int, 1u32));
                assert forall|a: int, b: int| 0 <= a < b < names1.len() implies lex_less(
                    names1[a],
                    names1[b],
                ) by {
                    if b < i {
                        assert(names1[a] == names0[a] && names1[b] == names0[b]);
                    } else if b == i {
                        assert(names1[a] == names0[a]);
                    } else if a < i {
                        assert(names1[a] == names0[a] && names1[b] == names0[b - 1]);
                        if b - 1 == i {
                            lemma_lex_transitive(names0[a], text, names0[i as int]);
                        }
                    } else if a == i {
                        assert(names1[b] == names0[b - 1]);
                        if b - 1 > i {
                            lemma_lex_transitive(text, names0[i as int], names0[b - 1]);
                        }
                    } else {
                        assert(names1[a] == names0[a - 1] && names1[b] == names0[b - 1]);
                    }
                }
                assert forall|k: int| 0 <= k < counts1.len() implies #[trigger] counts1[k] > 0 by {
                    if k < i {
                        assert(counts1[k] == counts0[k]);
                    } else if k > i {
                        assert(counts1[k] == counts0[k - 1]);
                    }
                }
                assert forall|n: Seq<char>| #[trigger]
                    self.count_of(n) == old(self).count_of(n) + if n == text {
                        1nat
                    } else {
                        0nat
                    } by {
                    if n == text {
                        assert(names1[i as int] == text);
                        lemma_count_at(names1, counts1, i as int);
                        assert(!names0.contains(n));
                    } else {
                        if names0.contains(n) {
                            let j = choose|j: int| 0 <= j < names0.len() && names0[j] == n;
                            lemma_count_at(names0, counts0, j);
                            if j < i {
                                assert(names1[j] == n);
                                lemma_count_at(names1, counts1, j);
                            } else {
                                assert(names1[j + 1] == n);
                                lemma_count_at(names1, counts1, j + 1);
                            }
                        }
                        if names1.contains(n) {
                            let j = choose|j: int| 0 <= j < names1.len() && names1[j] == n;
                            if j < i {
                                assert(names0[j] == n);
                            } else {
                                assert(names0[j - 1] == n);
                            }
                        }
                    }
                }
            }
        }
    }

    /// Counts the entry that carries `tags`: once for each tag of the list,
    /// however often the tag stands in it.
    pub fn add_entry(&mut self, tags: &Vec<String>)
        requires
            old(self).wf(),
            old(self).seen().len() < u32::MAX,
        ensures
            final(self).wf(),
            final(self).seen() == old(self).seen().push(texts(tags@)),
    {
        let ghost list = texts(tags@);
        let ghost seen0 = self.seen();
        let mut j: usize = 0;
        while j < tags.len()
            invariant
                j <= tags.len(),
                list == texts(tags@),
                seen0 == old(self).seen(),
                seen0.len() < u32::MAX,
                old(self).wf(),
                self.lists_wf(),
                self.seen() == seen0,
                forall|n: Seq<char>| #[trigger]
                    self.count_of(n) == tag_count(seen0, n) + if list.take(j as int).contains(n) {
                        1nat
                    } else {
                        0nat
                    },
            decreases tags.len() - j,
        {
            let ghost name = list[j as int];
            assert(name == tags@[j as int]@);
            let earlier = occurs_before(tags, j);
            proof {
                assert(list.take(j + 1) == list.take(j as int).push(name));
                assert forall|n: Seq<char>|
                    list.take(j + 1).contains(n) <==> (n == name || list.take(j as int).contains(
                        n,
                    )) by {
                    let a = list.take(j as int);
                    let b = list.take(j + 1);
                    if b.contains(n) {
                        let k = choose|k: int| 0 <= k < b.len() && b[k] == n;
                        if k < j {
                            assert(a[k] == n);
                        }
                    }
                    if n == name {
                        assert(b[j as int] == n);
                    }
                    if a.contains(n) {
                        let k = choose|k: int| 0 <= k < a.len() && a[k] == n;
                        assert(b[k] == n);
                    }
                }
            }
            if !earlier {
                proof {
                    lemma_tag_count_bound(seen0, name);
                    assert(self.count_of(name) == tag_count(seen0, name));
                }
                self.bump(chars_of(tags[j].as_str()));
            }
            j = j + 1;
        }
        proof {
            assert(list.take(tags.len() as int) == list);
            let before = *self;
            self.seen@ = seen0.push(list);
            assert(self.spec_names() == before.spec_names());
            assert(self.spec_counts() == before.spec_counts());
            let seen1 = seen0.push(list);
            assert(seen1.drop_last() == seen0);
            assert(seen1.last() == list);
            assert forall|name: Seq<char>| #[trigger]
                self.count_of(name) == tag_count(self.seen(), name) by {
                assert(self.count_of(name) == before.count_of(name));
                assert(tag_count(seen1, name) == tag_count(seen0, name) + if list.contains(name) {
                    1nat
                } else {
                    0nat
                });
            }
        }
    }

    /// The tags with their counts, in the order of the dictionary.
    pub fn items(&self) -> (r: Vec<TagCount>)
        requires
            self.wf(),
        ensures
            names_ascend(Seq::new(r@.len(), |i: int| r@[i].name@)),
            forall|i: int|
                0 <= i < r@.len() ==> (#[trigger] r@[i]).count > 0 && r@[i].count == tag_count(
                    self.seen(),
                    r@[i].name@,
                ),
            forall|name: Seq<char>|
                tag_count(self.seen(), name) > 0 ==> exists|i: int|
                    0 <= i < r@.len() && (#[trigger] r@[i]).name@ == name,
    {
        let ghost names = self.spec_names();
        let mut r: Vec<TagCount> = Vec::new();
        let mut i: usize = 0;
        while i < self.names.len()
            invariant
                i <= self.names.len(),
                self.wf(),
                names == self.spec_names(),
                r@.len() == i,
                forall|k: int| 0 <= k < i ==> (#[trigger] r@[k]).name@ == names[k],
                forall|k: int| 0 <= k < i ==> (#[trigger] r@[k]).count == self.counts@[k],
            decreases self.names.len() - i,
        {
            let name = string_of(&self.names[i]);
            assert(names[i as int] == self.names@[i as int]@);
            r.push(TagCount { name, count: self.counts[i] });
            i = i + 1;
        }
        proof {
            let out = Seq::new(r@.len(), |i: int| r@[i].name@);
            assert(out =~= names);
            assert forall|k: int| 0 <= k < r@.len() implies (#[trigger] r@[k]).count > 0
                && r@[k].count == tag_count(self.seen(), r@[k].name@) by {
                lemma_count_at(names, self.counts@, k);
                assert(self.count_of(names[k]) == tag_count(self.seen(), names[k]));
            }
            assert forall|name: Seq<char>| tag_count(self.seen(), name) > 0 implies exists|
                k: int,
            |
                0 <= k < r@.len() && (#[trigger] r@[k]).name@ == name by {
                assert(self.count_of(name) == tag_count(self.seen(), name));
                assert(names.contains(name));
                let k = choose|k: int| 0 <= k < names.len() && names[k] == name;
                assert(r@[k].name@ == name);
            }
        }
        r
    }
}

/// The texts of a list of names.
pub open spec fn names_of(v: Seq<Vec<char>>) -> Seq<Seq<char>> {
    Seq::new(v.len(), |i: int| v[i]@)
}

/// The index of the first of `names` that does not come before `name`, and
/// whether that one is `name` itself.
pub fn locate(names: &Vec<Vec<char>>, name: &Vec<char>) -> (r: (usize, bool))
    ensures
        r.0 <= names.len(),
        forall|j: int| 0 <= j < r.0 ==> lex_less(#[trigger] names_of(names@)[j], name@),
        r.1 ==> r.0 < names.len() && names_of(names@)[r.0 as int] == name@,
        !r.1 && r.0 < names.len() ==> lex_less(name@, names_of(names@)[r.0 as int]),
{
    let mut i: usize = 0;
    while i < names.len()
        invariant
            i <= names.len(),
            forall|j: int| 0 <= j < i ==> lex_less(#[trigger] names_of(names@)[j], name@),
        decreases names.len() - i,
    {
        assert(names_of(names@)[i as int] == names@[i as int]@);
        match compare(&names[i], name) {
            Order::Before => {
                i = i + 1;
            },
            Order::Same => {
                return (i, true);
            },
            Order::After => {
                return (i, false);
            },
        }
    }
    (i, false)
}

/// Whether the string at index `j` of `tags` stands at an earlier index too.
pub fn occurs_before(tags: &Vec<String>, j: usize) -> (r: bool)
    requires
        j < tags.len(),
    ensures
        r == texts(tags@).take(j as int).contains(texts(tags@)[j as int]),
{
    let ghost list = texts(tags@);
    let mut k: usize = 0;
    while k < j
        invariant
            k <= j < tags.len(),
            list == texts(tags@),
            forall|m: int| 0 <= m < k ==> list[m] != list[j as int],
        decreases j - k,
    {
        assert(list[k as int] == tags@[k as int]@);
        assert(list[j as int] == tags@[j as int]@);
        if tags[k] == tags[j] {
            assert(list.take(j as int)[k as int] == list[j as int]);
            return true;
        }
        k = k + 1;
    }
    assert forall|m: int| 0 <= m < list.take(j as int).len() implies list.take(j as int)[m]
        != list[j as int] by {
        assert(list.take(j as int)[m] == list[m]);
    }
    false
}

} // verus!
