//! Journal entries: the key by which an entry is known, and what it holds.

use vstd::prelude::*;
use crate::data::date::Date;
use crate::data::datetime::DateTime;
use core::cmp::Ordering;
use vstd::std_specs::cmp::PartialEqSpecImpl;
use vstd::std_specs::cmp::PartialOrdSpecImpl;

verus! {

/// The identity of an entry: its date, and a title that only serves to give
/// the entry a second path. Entries are ordered and told apart by the date
/// alone.
#[derive(Clone, Debug)]
pub struct EntryKey {
    /// The date of the entry.
    pub date: Date,
    /// The title beside the date, if the entry has one.
    pub id_title: Option<String>,
}

impl EntryKey {
    /// The key of the entry of `date`.
    pub fn new(date: Date, id_title: Option<String>) -> (r: EntryKey)
        ensures
            r.date == date,
            r.id_title == id_title,
    {
        EntryKey { date, id_title }
    }

    /// The date of the entry.
    pub fn date(&self) -> (r: Date)
        ensures
            r == self.date,
    {
        self.date
    }

    /// The title beside the date, if the entry has one.
    pub fn id_title(&self) -> (r: &Option<String>)
        ensures
            *r == self.id_title,
    {
        &self.id_title
    }
}

impl PartialEq for EntryKey {
    /// Two keys are equal where their dates are, whatever their titles.
    fn eq(&self, other: &EntryKey) -> (r: bool) {
        self.date.ordinal() == other.date.ordinal()
    }
}

impl PartialEqSpecImpl for EntryKey {
    open spec fn obeys_eq_spec() -> bool {
        true
    }

    open spec fn eq_spec(&self, other: &EntryKey) -> bool {
        self.date.spec_ordinal() == other.date.spec_ordinal()
    }
}

impl PartialOrd for EntryKey {
    /// Keys are ordered as their dates are, whatever their titles.
    fn partial_cmp(&self, other: &EntryKey) -> (r: Option<Ordering>) {
        let a = self.date.ordinal();
        let b = other.date.ordinal();
        if a < b {
            Some(Ordering::Less)
        } else if a > b {
            Some(Ordering::Greater)
        } else {
            Some(Ordering::Equal)
        }
    }
}

impl PartialOrdSpecImpl for EntryKey {
    open spec fn obeys_partial_cmp_spec() -> bool {
        true
    }

    open spec fn partial_cmp_spec(&self, other: &EntryKey) -> Option<Ordering> {
        if self.date.spec_ordinal() < other.date.spec_ordinal() {
            Some(Ordering::Less)
        } else if self.date.spec_ordinal() > other.date.spec_ordinal() {
            Some(Ordering::Greater)
        } else {
            Some(Ordering::Equal)
        }
    }
}

/// One entry of the journal.
#[derive(Clone, Debug)]
pub struct EntryRecord {
    /// The key of the entry.
    pub key: EntryKey,
    /// The tags of the entry. A tag that stands twice counts once.
    pub tags: Vec<String>,
    /// The minutes that the entry took to write.
    pub minutes: u32,
    /// When the entry was published.
    pub pubdate: DateTime,
    /// The title.
    pub title: String,
    /// The text of the entry, in Markdown.
    pub body: String,
}

/// The dates of `entries`, in their order.
pub open spec fn dates_of(entries: Seq<EntryRecord>) -> Seq<Date> {
    Seq::new(entries.len(), |i: int| entries[i].key.date)
}

/// The entries come in the order of their dates, the earliest first, and no
/// two have one date.
pub open spec fn entries_ascend(entries: Seq<EntryRecord>) -> bool {
    forall|i: int, j: int|
        0 <= i < j < entries.len() ==> entries[i].key.date.spec_ordinal()
            < entries[j].key.date.spec_ordinal()
}

/// Whether the entries come in the order of their dates, the earliest
/// first, and no two have one date.
pub fn sorted_by_date(entries: &Vec<EntryRecord>) -> (r: bool)
    ensures
        r == entries_ascend(entries@),
{
    if entries.len() < 2 {
        return true;
    }
    let mut i: usize = 1;
    while i < entries.len()
        invariant
            1 <= i <= entries.len(),
            forall|a: int, b: int|
                0 <= a < b < i ==> entries@[a].key.date.spec_ordinal()
                    < entries@[b].key.date.spec_ordinal(),
        decreases entries.len() - i,
    {
        if entries[i - 1].key.date.ordinal() >= entries[i].key.date.ordinal() {
            return false;
        }
        proof {
            assert forall|a: int, b: int| 0 <= a < b < i + 1 implies entries@[a].key.date.spec_ordinal()
                < entries@[b].key.date.spec_ordinal() by {
                if b == i && a < i - 1 {
                    assert(entries@[a].key.date.spec_ordinal() < entries@[i - 1].key.date.spec_ordinal());
                }
            }
        }
        i = i + 1;
    }
    true
}

/// The entries come in the order of their dates, the earliest first; two
/// of them may have one date.
pub open spec fn in_date_order(entries: Seq<EntryRecord>) -> bool {
    forall|i: int, j: int|
        0 <= i < j < entries.len() ==> entries[i].key.date.spec_ordinal()
            <= entries[j].key.date.spec_ordinal()
}

/// The entries come in the order of their dates, the latest first; two of
/// them may have one date.
pub open spec fn in_reverse_date_order(entries: Seq<EntryRecord>) -> bool {
    forall|i: int, j: int|
        0 <= i < j < entries.len() ==> entries[i].key.date.spec_ordinal()
            >= entries[j].key.date.spec_ordinal()
}

/// A sequence with one more item holds that item once more, and all else
/// as often as before.
proof fn lemma_insert_counts<A>(s: Seq<A>, at: int, e: A)
    requires
        0 <= at <= s.len(),
    ensures
        s.insert(at, e).to_multiset() == s.to_multiset().insert(e),
{
    broadcast use vstd::seq_lib::group_to_multiset_ensures;

    let t = s.insert(at, e);
    assert(t.remove(at) == s);
    assert(t[at] == e);
    assert(t.contains(e));
    assert(t.to_multiset() =~= s.to_multiset().insert(e));
}

/// A sequence without its last item holds that item once less, and all
/// else as often as before.
proof fn lemma_drop_last_counts<A>(s: Seq<A>)
    requires
        s.len() > 0,
    ensures
        s.to_multiset() == s.drop_last().to_multiset().insert(s.last()),
{
    broadcast use vstd::seq_lib::group_to_multiset_ensures;

    assert(s.drop_last().push(s.last()) == s);
}

/// The entries in the order of their dates, the earliest first: the same
/// entries, each as often as it was given.
pub fn sort_by_date(entries: Vec<EntryRecord>) -> (r: Vec<EntryRecord>)
    ensures
        r@.to_multiset() == entries@.to_multiset(),
        in_date_order(r@),
{
    let ghost given = entries@;
    let mut rest = entries;
    let mut held: Vec<EntryRecord> = Vec::new();
    assert(rest@.to_multiset().add(held@.to_multiset()) =~= given.to_multiset()) by {
        broadcast use vstd::seq_lib::group_to_multiset_ensures;

    }
    while rest.len() > 0
        invariant
            rest@.to_multiset().add(held@.to_multiset()) == given.to_multiset(),
            in_reverse_date_order(held@),
        decreases rest.len(),
    {
        let ghost before = rest@;
        let ghost kept = held@;
        let e = match rest.pop() {
            Some(e) => e,
            None => {
                return held;
            },
        };
        let key = e.key.date.ordinal();
        let mut at: usize = held.len();
        while at > 0 && held[at - 1].key.date.ordinal() < key
            invariant
                at <= held.len(),
                held@ == kept,
                forall|j: int| at <= j < held.len() ==> held@[j].key.date.spec_ordinal() < key,
            decreases at,
        {
            at = at - 1;
        }
        held.insert(at, e);
        proof {
            lemma_drop_last_counts(before);
            lemma_insert_counts(kept, at as int, e);
            assert(rest@.to_multiset().add(held@.to_multiset()) =~= given.to_multiset());
            assert forall|i: int, j: int| 0 <= i < j < held@.len() implies held@[i].key.date.spec_ordinal()
                >= held@[j].key.date.spec_ordinal() by {
                if j < at {
                    assert(held@[i] == kept[i] && held@[j] == kept[j]);
                } else if j == at {
                    assert(held@[i] == kept[i]);
                    if at > 0 {
                        assert(kept[at - 1].key.date.spec_ordinal() >= key);
                    }
                } else if i < at {
                    assert(held@[i] == kept[i] && held@[j] == kept[j - 1]);
                } else if i == at {
                    assert(held@[j] == kept[j - 1]);
                } else {
                    assert(held@[i] == kept[i - 1] && held@[j] == kept[j - 1]);
                }
            }
        }
    }
    let mut sorted: Vec<EntryRecord> = Vec::new();
    assert(sorted@.to_multiset().add(held@.to_multiset()) =~= given.to_multiset()) by {
        broadcast use vstd::seq_lib::group_to_multiset_ensures;

        assert(rest@.to_multiset() =~= Seq::<EntryRecord>::empty().to_multiset());
    }
    while held.len() > 0
        invariant
            sorted@.to_multiset().add(held@.to_multiset()) == given.to_multiset(),
            in_reverse_date_order(held@),
            in_date_order(sorted@),
            forall|i: int, j: int|
                0 <= i < sorted@.len() && 0 <= j < held@.len() ==> sorted@[i].key.date.spec_ordinal()
                    <= held@[j].key.date.spec_ordinal(),
        decreases held.len(),
    {
        let ghost before = held@;
        let ghost done = sorted@;
        let e = match held.pop() {
            Some(e) => e,
            None => {
                return sorted;
            },
        };
        sorted.push(e);
        proof {
            broadcast use vstd::seq_lib::group_to_multiset_ensures;

            lemma_drop_last_counts(before);
            assert(sorted@.to_multiset().add(held@.to_multiset()) =~= given.to_multiset());
            assert forall|i: int, j: int| 0 <= i < j < sorted@.len() implies sorted@[i].key.date.spec_ordinal()
                <= sorted@[j].key.date.spec_ordinal() by {
                if j < done.len() {
                    assert(sorted@[i] == done[i] && sorted@[j] == done[j]);
                } else {
                    assert(sorted@[i] == done[i]);
                    assert(sorted@[j] == before[before.len() - 1]);
                }
            }
            assert forall|i: int, j: int|
                0 <= i < sorted@.len() && 0 <= j < held@.len() implies sorted@[i].key.date.spec_ordinal()
                <= held@[j].key.date.spec_ordinal() by {
                assert(held@[j] == before[j]);
                if i < done.len() {
                    assert(sorted@[i] == done[i]);
                } else {
                    assert(sorted@[i] == before[before.len() - 1]);
                }
            }
        }
    }
    assert(sorted@.to_multiset() =~= given.to_multiset()) by {
        broadcast use vstd::seq_lib::group_to_multiset_ensures;

        assert(held@.to_multiset() =~= Seq::<EntryRecord>::empty().to_multiset());
    }
    sorted
}

} // verus!
