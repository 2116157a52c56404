//! Windows over the entries in the order of their dates.
//!
//! There are two kinds, which are kept apart on purpose. The page window is
//! what a listing page shows: the focus with up to four neighbours on each
//! side, in the order of the sequence, or the last nine entries, the latest
//! first, where there is no focus. The related lists are what stands in the
//! record of one entry: up to four entries before it and up to four after
//! it, both with the later entry first, and the entries of the same day of
//! the year.

use vstd::prelude::*;
use crate::data::date::Date;
use crate::links::dates_ascend;

verus! {

/// The number of neighbours that a window shows on each side of its focus.
pub const NEIGHBOURS: usize = 4;

/// The greatest number of entries of a page window.
pub const PAGE_SIZE: usize = 9;

/// `x`, but no less than 0 and no more than `len`.
pub open spec fn clip(x: int, len: int) -> int {
    if x < 0 {
        0
    } else if x > len {
        len
    } else {
        x
    }
}

/// The index at which the page window of the focus `i` starts.
pub open spec fn page_start(len: int, i: int) -> int {
    clip(i - 4, len)
}

/// The index before which the page window of the focus `i` ends.
pub open spec fn page_end(len: int, i: int) -> int {
    clip(i + 5, len)
}

/// The page window of a focus: the entries from four before it to four
/// after it, as far as there are any, in the order of the sequence.
pub open spec fn focus_window<T>(s: Seq<T>, i: int) -> Seq<T> {
    s.subrange(page_start(s.len() as int, i), page_end(s.len() as int, i))
}

/// The page window without a focus: the last nine entries, or all of them
/// where there are fewer, the last one first.
pub open spec fn latest_window<T>(s: Seq<T>) -> Seq<T> {
    s.subrange(clip(s.len() - 9, s.len() as int), s.len() as int).reverse()
}

/// The page window of `s` for the given focus.
pub open spec fn page_window<T>(s: Seq<T>, focus: Option<usize>) -> Seq<T> {
    match focus {
        Some(i) => focus_window(s, i as int),
        None => latest_window(s),
    }
}

/// The entries before the focus `i`, at most four, the nearest first.
pub open spec fn prev_window<T>(s: Seq<T>, i: int) -> Seq<T> {
    Seq::new(clip(i, 4) as nat, |k: int| s[i - 1 - k])
}

/// The number of entries after the focus `i`, at most four.
pub open spec fn next_count(len: int, i: int) -> int {
    clip(len - 1 - i, 4)
}

/// The entries after the focus `i`, at most four, the farthest first and the
/// nearest last.
pub open spec fn next_window<T>(s: Seq<T>, i: int) -> Seq<T> {
    Seq::new(next_count(s.len() as int, i) as nat, |k: int| s[i + next_count(s.len() as int, i) - k])
}

/// `d` is another date than `focus` with the same month and day.
pub open spec fn is_peer(d: Date, focus: Date) -> bool {
    d.spec_month() == focus.spec_month() && d.spec_day() == focus.spec_day() && d.spec_year()
        != focus.spec_year()
}

/// Those of the first `n` dates of `s` that are peers of `focus`, in the
/// order of the sequence.
pub open spec fn peers_upto(s: Seq<Date>, focus: Date, n: int) -> Seq<Date>
    decreases n,
{
    if n <= 0 {
        Seq::empty()
    } else if is_peer(s[n - 1], focus) {
        peers_upto(s, focus, n - 1).push(s[n - 1])
    } else {
        peers_upto(s, focus, n - 1)
    }
}

/// The dates of `s` that fall on the same day of the year as `focus`,
/// without `focus` itself, in the order of the sequence.
pub open spec fn same_day(s: Seq<Date>, focus: Date) -> Seq<Date> {
    peers_upto(s, focus, s.len() as int)
}

/// A page window holds at most nine entries, and nine only where the focus
/// has four neighbours on each side or, without a focus, where there are
/// nine entries.
pub proof fn lemma_page_window_len<T>(s: Seq<T>, focus: Option<usize>)
    ensures
        page_window(s, focus).len() <= 9,
        focus matches Some(i) ==> (page_window(s, focus).len() == 9 <==> 4 <= i && i + 5
            <= s.len()),
        focus is None ==> (page_window(s, focus).len() == 9 <==> s.len() >= 9),
{
}

/// A peer list holds peers only, every peer among the first `n` dates, and
/// keeps the order of the sequence.
pub proof fn lemma_peers(s: Seq<Date>, focus: Date, n: int)
    requires
        0 <= n <= s.len(),
    ensures
        forall|d: Date| #[trigger]
            peers_upto(s, focus, n).contains(d) <==> (is_peer(d, focus) && s.take(n).contains(d)),
        dates_ascend(s) ==> dates_ascend(peers_upto(s, focus, n)),
        dates_ascend(s) ==> forall|j: int|
            0 <= j < peers_upto(s, focus, n).len() ==> (#[trigger] peers_upto(
                s,
                focus,
                n,
            )[j]).spec_ordinal() <= s[n - 1].spec_ordinal(),
    decreases n,
{
    if n > 0 {
        lemma_peers(s, focus, n - 1);
        let rest = peers_upto(s, focus, n - 1);
        let all = peers_upto(s, focus, n);
        let last = s[n - 1];
        assert forall|d: Date| #[trigger]
            all.contains(d) <==> (is_peer(d, focus) && s.take(n).contains(d)) by {
            if all.contains(d) {
                let j = choose|j: int| 0 <= j < all.len() && all[j] == d;
                if is_peer(last, focus) && j == rest.len() {
                    assert(s.take(n)[n - 1] == d);
                } else {
                    assert(rest[j] == d);
                    assert(rest.contains(d));
                    assert(s.take(n - 1).contains(d));
                    let t1 = s.take(n - 1);
                    let k = choose|k: int| 0 <= k < t1.len() && t1[k] == d;
                    assert(s.take(n)[k] == d);
                }
            }
            if is_peer(d, focus) && s.take(n).contains(d) {
                let t0 = s.take(n);
                let k = choose|k: int| 0 <= k < t0.len() && t0[k] == d;
                if k == n - 1 {
                    assert(all[rest.len() as int] == d);
                } else {
                    assert(s.take(n - 1)[k] == d);
                    assert(s.take(n - 1).contains(d));
                    assert(rest.contains(d));
                    let j = choose|j: int| 0 <= j < rest.len() && rest[j] == d;
                    assert(all[j] == d);
                }
            }
        }
        if dates_ascend(s) {
            assert forall|j: int| 0 <= j < all.len() implies (#[trigger] all[j]).spec_ordinal()
                <= s[n - 1].spec_ordinal() by {
                if j < rest.len() {
                    assert(all[j] == rest[j]);
                    if n >= 2 {
                        assert(s[n - 2].spec_ordinal() < s[n - 1].spec_ordinal());
                    }
                }
            }
            assert forall|a: int, b: int| 0 <= a < b < all.len() implies all[a].spec_ordinal()
                < all[b].spec_ordinal() by {
                if b < rest.len() {
                    assert(all[a] == rest[a] && all[b] == rest[b]);
                } else {
                    assert(all[a] == rest[a]);
                    assert(all[b] == s[n - 1]);
                    assert(n >= 2);
                    assert(rest[a].spec_ordinal() <= s[n - 2].spec_ordinal());
                    assert(s[n - 2].spec_ordinal() < s[n - 1].spec_ordinal());
                }
            }
        }
    }
}

/// In a sequence in which the dates ascend, the entries before the focus
/// and the entries after it both come with the later date first.
pub proof fn lemma_related_lists_descend(s: Seq<Date>, i: int)
    requires
        dates_ascend(s),
        0 <= i < s.len(),
    ensures
        forall|a: int, b: int|
            0 <= a < b < prev_window(s, i).len() ==> prev_window(s, i)[a].spec_ordinal()
                > prev_window(s, i)[b].spec_ordinal(),
        forall|a: int, b: int|
            0 <= a < b < next_window(s, i).len() ==> next_window(s, i)[a].spec_ordinal()
                > next_window(s, i)[b].spec_ordinal(),
        forall|a: int|
            0 <= a < prev_window(s, i).len() ==> (#[trigger] prev_window(s, i)[a]).spec_ordinal()
                < s[i].spec_ordinal(),
        forall|a: int|
            0 <= a < next_window(s, i).len() ==> (#[trigger] next_window(s, i)[a]).spec_ordinal()
                > s[i].spec_ordinal(),
{
}

/// The bounds of the page window of `len` entries for the focus `i`.
pub fn page_bounds(len: usize, i: usize) -> (r: (usize, usize))
    ensures
        r.0 == page_start(len as int, i as int),
        r.1 == page_end(len as int, i as int),
        r.0 <= r.1 <= len,
{
    let start: usize = if i < NEIGHBOURS {
        0
    } else if i - NEIGHBOURS > len {
        len
    } else {
        i - NEIGHBOURS
    };
    let end: usize = if i >= len || len - i <= NEIGHBOURS + 1 {
        len
    } else {
        i + NEIGHBOURS + 1
    };
    (start, end)
}

/// The page window of `entries` for the given focus.
pub fn page_entries<'a, T>(entries: &'a [T], focus: Option<usize>) -> (r: Vec<&'a T>)
    ensures
        r@.len() == page_window(entries@, focus).len(),
        forall|k: int| 0 <= k < r@.len() ==> *(#[trigger] r@[k]) == page_window(entries@, focus)[k],
{
    let len = entries.len();
    let mut r: Vec<&T> = Vec::new();
    match focus {
        Some(i) => {
            let (start, end) = page_bounds(len, i);
            let mut k: usize = start;
            while k < end
                invariant
                    start <= k <= end <= len,
                    len == entries@.len(),
                    r@.len() == k - start,
                    forall|j: int| 0 <= j < r@.len() ==> *(#[trigger] r@[j]) == entries@[start + j],
                decreases end - k,
            {
                r.push(&entries[k]);
                k = k + 1;
            }
        },
        None => {
            let start: usize = if len > PAGE_SIZE {
                len - PAGE_SIZE
            } else {
                0
            };
            let mut k: usize = len;
            while k > start
                invariant
                    start <= k <= len,
                    len == entries@.len(),
                    r@.len() == len - k,
                    forall|j: int|
                        0 <= j < r@.len() ==> *(#[trigger] r@[j]) == entries@[len - 1 - j],
                decreases k,
            {
                k = k - 1;
                r.push(&entries[k]);
            }
        },
    }
    r
}

/// The dates before the focus `i`, at most four, the nearest first.
pub fn related_prev(dates: &Vec<Date>, i: usize) -> (r: Vec<Date>)
    requires
        i < dates.len(),
    ensures
        r@ == prev_window(dates@, i as int),
{
    let n: usize = if i < NEIGHBOURS {
        i
    } else {
        NEIGHBOURS
    };
    let mut r: Vec<Date> = Vec::new();
    let mut k: usize = 0;
    while k < n
        invariant
            k <= n <= i < dates.len(),
            n == clip(i as int, 4),
            r@.len() == k,
            forall|j: int| 0 <= j < k ==> r@[j] == dates@[i - 1 - j],
        decreases n - k,
    {
        r.push(dates[i - 1 - k]);
        k = k + 1;
    }
    assert(r@ =~= prev_window(dates@, i as int));
    r
}

/// The dates after the focus `i`, at most four, the farthest first and the
/// nearest last.
pub fn related_next(dates: &Vec<Date>, i: usize) -> (r: Vec<Date>)
    requires
        i < dates.len(),
    ensures
        r@ == next_window(dates@, i as int),
{
    let after: usize = dates.len() - 1 - i;
    let n: usize = if after < NEIGHBOURS {
        after
    } else {
        NEIGHBOURS
    };
    let mut r: Vec<Date> = Vec::new();
    let mut k: usize = 0;
    while k < n
        invariant
            k <= n,
            i + n < dates.len(),
            n == next_count(dates@.len() as int, i as int),
            r@.len() == k,
            forall|j: int| 0 <= j < k ==> r@[j] == dates@[i + n - j],
        decreases n - k,
    {
        r.push(dates[i + n - k]);
        k = k + 1;
    }
    assert(r@ =~= next_window(dates@, i as int));
    r
}

/// The dates that fall on the same day of the year as the focus `i`, without
/// the focus itself, in the order of the sequence.
pub fn related_same(dates: &Vec<Date>, i: usize) -> (r: Vec<Date>)
    requires
        i < dates.len(),
    ensures
        r@ == same_day(dates@, dates@[i as int]),
{
    let focus = dates[i];
    let mut r: Vec<Date> = Vec::new();
    let mut k: usize = 0;
    while k < dates.len()
        invariant
            k <= dates.len(),
            focus == dates@[i as int],
            r@ == peers_upto(dates@, focus, k as int),
        decreases dates.len() - k,
    {
        let d = dates[k];
        if d.month() == focus.month() && d.day_of_month() == focus.day_of_month() && d.year()
            != focus.year() {
            r.push(d);
        }
        k = k + 1;
    }
    r
}

} // verus!
