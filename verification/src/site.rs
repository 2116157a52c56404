//! The index of a journal: for each entry the entries around it and the
//! dates linked with it, for each date that is named the entries that name
//! it, and for each tag the number of entries that carry it.
//!
//! The index is computed anew from all entries, in one pass over them for the
//! links and the tags and one more for the lists of each entry.

use vstd::prelude::*;
use crate::data::date::Date;
use crate::data::entry::dates_of;
use crate::data::entry::entries_ascend;
use crate::data::entry::EntryRecord;
use crate::graph::Backlinks;
use crate::graph::LinkGraph;
use crate::lexical::names_ascend;
use crate::links::dates_ascend;
use crate::links::dates_wf;
use crate::links::has_malformed_token;
use crate::links::is_malformed_at;
use crate::links::mentions;
use crate::links::parse_links;
use crate::tags::tag_count;
use crate::tags::texts;
use crate::tags::TagCount;
use crate::tags::TagCounter;
use crate::window::next_window;
use crate::window::prev_window;
use crate::window::related_next;
use crate::window::related_prev;
use crate::window::related_same;
use crate::window::same_day;

verus! {

/// The dates that stand in the record of one entry.
pub struct Related {
    /// The dates of the entries that name this one, the earliest first.
    pub inbound: Vec<Date>,
    /// The dates of up to four entries after this one, the farthest first.
    pub next: Vec<Date>,
    /// The dates that this entry names, the earliest first.
    pub outbound: Vec<Date>,
    /// The dates of up to four entries before this one, the nearest first.
    pub prev: Vec<Date>,
    /// The dates of the entries of the same day of other years, the earliest
    /// first.
    pub same: Vec<Date>,
}

/// What is derived from all entries together.
pub struct SiteIndex {
    /// The dates around each entry and linked with it, one record for each
    /// entry, in the order of the entries.
    pub related: Vec<Related>,
    /// Every date that is named, with the entries that name it.
    pub backlinks: Vec<Backlinks>,
    /// Every tag, with the number of entries that carry it.
    pub tags: Vec<TagCount>,
}

/// A body names a day that the calendar does not have.
#[derive(Clone, Copy, Debug, PartialEq, Eq)]
pub struct BuildError {
    /// The index of the entry.
    pub entry: usize,
    /// The index, in the characters of its body, at which the token starts.
    pub at: usize,
}

/// Some entry of the date `a` names the date `b` in its body.
pub open spec fn names(entries: Seq<EntryRecord>, a: Date, b: Date) -> bool {
    exists|j: int|
        0 <= j < entries.len() && (#[trigger] entries[j]).key.date == a && mentions(
            entries[j].body@,
            b,
        )
}

/// Some entry names the date `b` in its body.
pub open spec fn is_named_in(entries: Seq<EntryRecord>, b: Date) -> bool {
    exists|a: Date| a.wf() && #[trigger] names(entries, a, b)
}

/// The tag lists of the entries, in their order.
pub open spec fn tag_lists(entries: Seq<EntryRecord>) -> Seq<Seq<Seq<char>>> {
    Seq::new(entries.len(), |i: int| texts(entries[i].tags@))
}

/// `rel` holds what belongs in the record of the entry at index `i`.
pub open spec fn is_related_of(rel: Related, entries: Seq<EntryRecord>, i: int) -> bool {
    let dates = dates_of(entries);
    &&& rel.prev@ == prev_window(dates, i)
    &&& rel.next@ == next_window(dates, i)
    &&& rel.same@ == same_day(dates, dates[i])
    &&& dates_wf(rel.outbound@)
    &&& dates_ascend(rel.outbound@)
    &&& forall|d: Date| d.wf() ==> (rel.outbound@.contains(d) <==> mentions(entries[i].body@, d))
    &&& dates_wf(rel.inbound@)
    &&& dates_ascend(rel.inbound@)
    &&& forall|a: Date| a.wf() ==> (rel.inbound@.contains(a) <==> names(entries, a, dates[i]))
}

/// `list` holds every date that the entries name, the earliest first, each
/// with the dates of the entries that name it, the earliest first.
pub open spec fn are_backlinks_of(list: Seq<Backlinks>, entries: Seq<EntryRecord>) -> bool {
    &&& forall|i: int, j: int|
        0 <= i < j < list.len() ==> list[i].date.spec_ordinal() < list[j].date.spec_ordinal()
    &&& forall|i: int| 0 <= i < list.len() ==> (#[trigger] list[i]).date.wf()
    &&& forall|i: int| 0 <= i < list.len() ==> dates_wf((#[trigger] list[i]).sources@)
    &&& forall|i: int| 0 <= i < list.len() ==> dates_ascend((#[trigger] list[i]).sources@)
    &&& forall|i: int, a: Date|
        0 <= i < list.len() && a.wf() ==> ((#[trigger] list[i]).sources@.contains(a)
            <==> #[trigger] names(entries, a, list[i].date))
    &&& forall|b: Date|
        b.wf() && #[trigger] is_named_in(entries, b) ==> exists|i: int|
            0 <= i < list.len() && (#[trigger] list[i]).date == b
    &&& forall|i: int| 0 <= i < list.len() ==> is_named_in(entries, (#[trigger] list[i]).date)
}

/// `list` holds every tag that an entry carries, in the order of the
/// dictionary, each with the number of entries that carry it.
pub open spec fn are_tag_counts_of(list: Seq<TagCount>, entries: Seq<EntryRecord>) -> bool {
    &&& names_ascend(Seq::new(list.len(), |i: int| list[i].name@))
    &&& forall|i: int|
        0 <= i < list.len() ==> (#[trigger] list[i]).count > 0 && list[i].count == tag_count(
            tag_lists(entries),
            list[i].name@,
        )
    &&& forall|name: Seq<char>|
        tag_count(tag_lists(entries), name) > 0 ==> exists|i: int|
            0 <= i < list.len() && (#[trigger] list[i]).name@ == name
}

/// The entry at index `i` is the first whose body names a day that the
/// calendar does not have, and the token at `at` is the first such token in
/// it.
pub open spec fn is_first_malformed(entries: Seq<EntryRecord>, i: int, at: int) -> bool {
    &&& 0 <= i < entries.len()
    &&& is_malformed_at(entries[i].body@, at)
    &&& forall|k: int| k < at ==> !is_malformed_at(entries[i].body@, k)
    &&& forall|j: int| 0 <= j < i ==> !has_malformed_token((#[trigger] entries[j]).body@)
}

/// `index` is the index of the journal that holds `entries`: no body names
/// a day that the calendar does not have, and the lists of each entry, the
/// dates that are named and the counts of the tags are as they should be.
pub open spec fn is_index_of(index: SiteIndex, entries: Seq<EntryRecord>) -> bool {
    &&& forall|i: int|
        0 <= i < entries.len() ==> !has_malformed_token((#[trigger] entries[i]).body@)
    &&& index.related@.len() == entries.len()
    &&& forall|i: int|
        0 <= i < entries.len() ==> is_related_of(#[trigger] index.related@[i], entries, i)
    &&& are_backlinks_of(index.backlinks@, entries)
    &&& are_tag_counts_of(index.tags@, entries)
}

/// The two directions of the links agree in an index: the entry at index
/// `i` names the date `b` exactly when `b` stands among the dates that are
/// named, with the date of that entry among its sources. Whether `b` has an
/// entry does not matter.
pub proof fn lemma_index_symmetry(index: SiteIndex, entries: Seq<EntryRecord>, i: int, b: Date)
    requires
        is_index_of(index, entries),
        entries_ascend(entries),
        0 <= i < entries.len(),
        entries[i].key.date.wf(),
        b.wf(),
    ensures
        index.related@[i].outbound@.contains(b) <==> exists|k: int|
            0 <= k < index.backlinks@.len() && (#[trigger] index.backlinks@[k]).date == b
                && index.backlinks@[k].sources@.contains(entries[i].key.date),
{
    let a = entries[i].key.date;
    let rel = index.related@[i];
    let list = index.backlinks@;
    assert(is_related_of(rel, entries, i));
    if rel.outbound@.contains(b) {
        assert(mentions(entries[i].body@, b));
        assert(names(entries, a, b));
        assert(is_named_in(entries, b));
        let k = choose|k: int| 0 <= k < list.len() && (#[trigger] list[k]).date == b;
        assert(list[k].sources@.contains(a) <==> names(entries, a, list[k].date));
    }
    if exists|k: int|
        0 <= k < list.len() && (#[trigger] list[k]).date == b && list[k].sources@.contains(a) {
        let k = choose|k: int|
            0 <= k < list.len() && (#[trigger] list[k]).date == b && list[k].sources@.contains(a);
        assert(list[k].sources@.contains(a) <==> names(entries, a, list[k].date));
        let j = choose|j: int|
            0 <= j < entries.len() && (#[trigger] entries[j]).key.date == a && mentions(
                entries[j].body@,
                b,
            );
        if j < i {
            assert(entries[j].key.date.spec_ordinal() < entries[i].key.date.spec_ordinal());
        }
        if i < j {
            assert(entries[i].key.date.spec_ordinal() < entries[j].key.date.spec_ordinal());
        }
        assert(mentions(entries[i].body@, b));
    }
}

/// The index of the journal that holds `entries`. Where a body names a day
/// that the calendar does not have, there is no index, and the result says
/// where the first such token stands.
pub fn build_index(entries: &Vec<EntryRecord>) -> (r: Result<SiteIndex, BuildError>)
    requires
        entries_ascend(entries@),
        entries.len() < u32::MAX,
    ensures
        match r {
            Ok(index) => is_index_of(index, entries@),
            Err(e) => is_first_malformed(entries@, e.entry as int, e.at as int),
        },
{
    let n = entries.len();
    let ghost all = entries@;
    let mut graph = LinkGraph::new();
    let mut counter = TagCounter::new();
    let mut dates: Vec<Date> = Vec::new();
    let mut i: usize = 0;
    while i < n
        invariant
            i <= n,
            n == entries.len(),
            n < u32::MAX,
            all == entries@,
            entries_ascend(all),
            graph.wf(),
            counter.wf(),
            counter.seen() == tag_lists(all).take(i as int),
            dates@ == dates_of(all).take(i as int),
            dates_wf(dates@),
            forall|j: int| 0 <= j < i ==> !has_malformed_token((#[trigger] all[j]).body@),
            forall|a: Date, b: Date|
                a.wf() && b.wf() ==> (#[trigger] graph.refers(a, b) <==> names(
                    all.take(i as int),
                    a,
                    b,
                )),
        decreases n - i,
    {
        let entry = &entries[i];
        let date = entry.key.date;
        proof {
            use_type_invariant(&date);
        }
        let links = match parse_links(entry.body.as_str()) {
            Ok(links) => links,
            Err(e) => {
                return Err(BuildError { entry: i, at: e.at });
            },
        };
        let ghost before = graph;
        graph.add_entry(date, &links);
        counter.add_entry(&entry.tags);
        dates.push(date);
        proof {
            assert(tag_lists(all).take(i + 1) == tag_lists(all).take(i as int).push(
                texts(entry.tags@),
            ));
            assert(dates_of(all).take(i + 1) == dates_of(all).take(i as int).push(date));
            let s0 = all.take(i as int);
            let s1 = all.take(i + 1);
            assert forall|a: Date, b: Date| a.wf() && b.wf() implies (#[trigger] graph.refers(a, b)
                <==> names(s1, a, b)) by {
                if names(s1, a, b) {
                    let j = choose|j: int|
                        0 <= j < s1.len() && (#[trigger] s1[j]).key.date == a && mentions(
                            s1[j].body@,
                            b,
                        );
                    if j < i {
                        assert(s0[j] == s1[j]);
                        assert(names(s0, a, b));
                    } else {
                        assert(s1[j] == all[i as int]);
                    }
                }
                if names(s0, a, b) {
                    let j = choose|j: int|
                        0 <= j < s0.len() && (#[trigger] s0[j]).key.date == a && mentions(
                            s0[j].body@,
                            b,
                        );
                    assert(s1[j] == s0[j]);
                }
                if a == date && links@.contains(b) {
                    assert(s1[i as int] == all[i as int]);
                }
            }
        }
        i = i + 1;
    }
    assert(all.take(n as int) == all);
    assert(dates@ == dates_of(all));
    let mut related: Vec<Related> = Vec::new();
    let mut k: usize = 0;
    while k < n
        invariant
            k <= n,
            n == entries.len(),
            all == entries@,
            entries_ascend(all),
            graph.wf(),
            dates@ == dates_of(all),
            dates_wf(dates@),
            related@.len() == k,
            forall|a: Date, b: Date|
                a.wf() && b.wf() ==> (#[trigger] graph.refers(a, b) <==> names(all, a, b)),
            forall|j: int| 0 <= j < k ==> is_related_of(#[trigger] related@[j], all, j),
        decreases n - k,
    {
        let date = dates[k];
        assert(date == all[k as int].key.date);
        assert(date.wf());
        let prev = related_prev(&dates, k);
        let next = related_next(&dates, k);
        let same = related_same(&dates, k);
        let outbound = graph.outbound(date);
        let inbound = graph.inbound(date);
        proof {
            assert forall|d: Date| d.wf() implies (outbound@.contains(d) <==> mentions(
                all[k as int].body@,
                d,
            )) by {
                if names(all, date, d) {
                    let j = choose|j: int|
                        0 <= j < all.len() && (#[trigger] all[j]).key.date == date && mentions(
                            all[j].body@,
                            d,
                        );
                    if j < k {
                        assert(all[j].key.date.spec_ordinal() < all[k as int].key.date.spec_ordinal());
                    }
                    if k < j {
                        assert(all[k as int].key.date.spec_ordinal() < all[j].key.date.spec_ordinal());
                    }
                }
                if mentions(all[k as int].body@, d) {
                    assert(names(all, date, d));
                }
            }
            assert forall|a: Date| a.wf() implies (inbound@.contains(a) <==> names(all, a, date)) by {
                graph.lemma_symmetry(a, date);
            }
        }
        let rel = Related { inbound, next, outbound, prev, same };
        assert(is_related_of(rel, all, k as int));
        related.push(rel);
        k = k + 1;
    }
    let backlinks = graph.backlinks();
    let tags = counter.items();
    proof {
        assert forall|i: int, a: Date|
            0 <= i < backlinks@.len() && a.wf() implies ((#[trigger] backlinks@[i]).sources@.contains(
            a,
        ) <==> #[trigger] names(all, a, backlinks@[i].date)) by {
            graph.lemma_symmetry(a, backlinks@[i].date);
        }
        assert forall|b: Date| b.wf() implies (graph.is_named(b) <==> is_named_in(all, b)) by {
            if graph.is_named(b) {
                let a = choose|a: Date| a.wf() && #[trigger] graph.referred_by(b, a);
                graph.lemma_symmetry(a, b);
                assert(names(all, a, b));
            }
            if is_named_in(all, b) {
                let a = choose|a: Date| a.wf() && #[trigger] names(all, a, b);
                graph.lemma_symmetry(a, b);
                assert(graph.referred_by(b, a));
            }
        }
        assert forall|b: Date| b.wf() && #[trigger] is_named_in(all, b) implies exists|i: int|
            0 <= i < backlinks@.len() && (#[trigger] backlinks@[i]).date == b by {
            assert(graph.is_named(b));
        }
        assert forall|i: int| 0 <= i < backlinks@.len() implies is_named_in(
            all,
            (#[trigger] backlinks@[i]).date,
        ) by {
            assert(graph.is_named(backlinks@[i].date));
        }
        assert(counter.seen() == tag_lists(all));
    }
    Ok(SiteIndex { related, backlinks, tags })
}

} // verus!
