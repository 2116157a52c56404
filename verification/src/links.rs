//! Reference tokens: the dates that the body of an entry names in square
//! brackets, as in `[2021-02-03]`.
//!
//! A token is an opening bracket, four digits, a hyphen, a digit 0 or 1 and
//! one more digit, a hyphen, a digit from 0 to 3 and one more digit, and a
//! closing bracket. Tokens cannot overlap, since a token holds no opening
//! bracket but its first character.

use vstd::prelude::*;
use crate::data::date::has_date_shape;
use crate::data::date::is_date_text;
use crate::data::date::is_ordinal;
use crate::data::date::text_day;
use crate::data::date::text_month;
use crate::data::date::text_year;
use crate::data::date::Date;
use crate::ordered::insert;
use crate::ordered::strictly_increasing;
use crate::text::chars_of;
use crate::text::read_decimal;

verus! {

/// The number of characters of a token.
pub const TOKEN_LENGTH: usize = 12;

/// The ten characters between the brackets of the token at `i`.
pub open spec fn token_text(s: Seq<char>, i: int) -> Seq<char> {
    s.subrange(i + 1, i + 11)
}

/// A token starts at index `i` of `s`.
pub open spec fn is_token_at(s: Seq<char>, i: int) -> bool {
    &&& 0 <= i
    &&& i + 12 <= s.len()
    &&& s[i] == '['
    &&& has_date_shape(token_text(s, i))
    &&& (s[i + 6] == '0' || s[i + 6] == '1')
    &&& '0' <= s[i + 9] <= '3'
    &&& s[i + 11] == ']'
}

/// The token at `i` names the date `d`.
pub open spec fn token_names(s: Seq<char>, i: int, d: Date) -> bool {
    let t = token_text(s, i);
    &&& is_token_at(s, i)
    &&& text_year(t) == d.spec_year()
    &&& text_month(t) == d.spec_month()
    &&& text_day(t) == d.spec_day()
}

/// The token at `i` names a day that the calendar does not have.
pub open spec fn is_malformed_at(s: Seq<char>, i: int) -> bool {
    is_token_at(s, i) && !is_date_text(token_text(s, i))
}

/// Some token of `s` names the date `d`.
pub open spec fn mentions(s: Seq<char>, d: Date) -> bool {
    exists|i: int| token_names(s, i, d)
}

/// Some token of `s` names a day that the calendar does not have.
pub open spec fn has_malformed_token(s: Seq<char>) -> bool {
    exists|i: int| is_malformed_at(s, i)
}

/// Some token of `s` that starts before `end` names the date `d`.
pub open spec fn mentions_before(s: Seq<char>, end: int, d: Date) -> bool {
    exists|i: int| i < end && token_names(s, i, d)
}

/// The dates of `v` are in order, the earliest first, and none comes twice.
pub open spec fn dates_ascend(v: Seq<Date>) -> bool {
    forall|i: int, j: int| 0 <= i < j < v.len() ==> v[i].spec_ordinal() < v[j].spec_ordinal()
}

/// Every date of `v` is a day of the calendar.
pub open spec fn dates_wf(v: Seq<Date>) -> bool {
    forall|i: int| 0 <= i < v.len() ==> (#[trigger] v[i]).wf()
}

/// The ordinals of `v`, in its order.
pub open spec fn ordinals_of(v: Seq<Date>) -> Seq<u32> {
    Seq::new(v.len(), |i: int| v[i].spec_ordinal() as u32)
}

/// A list of dates is known by what it holds: two lists in which the dates
/// ascend and which hold the same dates are one list.
pub proof fn lemma_dates_unique(a: Seq<Date>, b: Seq<Date>)
    requires
        dates_wf(a),
        dates_wf(b),
        dates_ascend(a),
        dates_ascend(b),
        forall|d: Date| d.wf() ==> (a.contains(d) <==> b.contains(d)),
    ensures
        a == b,
{
    let oa = ordinals_of(a);
    let ob = ordinals_of(b);
    assert forall|i: int| 0 <= i < a.len() implies 0 <= (#[trigger] a[i]).spec_ordinal()
        <= 99999999 by {
        a[i].lemma_wf();
    }
    assert forall|i: int| 0 <= i < b.len() implies 0 <= (#[trigger] b[i]).spec_ordinal()
        <= 99999999 by {
        b[i].lemma_wf();
    }
    assert forall|x: u32| oa.contains(x) <==> ob.contains(x) by {
        if oa.contains(x) {
            let i = choose|i: int| 0 <= i < oa.len() && oa[i] == x;
            assert(a.contains(a[i]));
            let j = choose|j: int| 0 <= j < b.len() && b[j] == a[i];
            assert(ob[j] == x);
        }
        if ob.contains(x) {
            let i = choose|i: int| 0 <= i < ob.len() && ob[i] == x;
            assert(b.contains(b[i]));
            let j = choose|j: int| 0 <= j < a.len() && a[j] == b[i];
            assert(oa[j] == x);
        }
    }
    assert(strictly_increasing(oa)) by {
        assert forall|i: int, j: int| 0 <= i < j < oa.len() implies oa[i] < oa[j] by {
            assert(a[i].spec_ordinal() < a[j].spec_ordinal());
        }
    }
    assert(strictly_increasing(ob)) by {
        assert forall|i: int, j: int| 0 <= i < j < ob.len() implies ob[i] < ob[j] by {
            assert(b[i].spec_ordinal() < b[j].spec_ordinal());
        }
    }
    crate::ordered::lemma_increasing_unique(oa, ob);
    assert(a.len() == b.len());
    assert forall|i: int| 0 <= i < a.len() implies a[i] == b[i] by {
        assert(oa[i] == ob[i]);
        crate::data::date::lemma_ordinal_orders(a[i], b[i]);
    }
    assert(a =~= b);
}

/// A token that names a day which the calendar does not have.
#[derive(Clone, Copy, Debug, PartialEq, Eq)]
pub struct MalformedReference {
    /// The index, in characters, at which the token starts.
    pub at: usize,
}

/// Whether a token starts at index `i` of `v`.
pub fn token_at(v: &Vec<char>, i: usize) -> (r: bool)
    ensures
        r == is_token_at(v@, i as int),
{
    if v.len() < TOKEN_LENGTH || i > v.len() - TOKEN_LENGTH {
        return false;
    }
    if v[i] != '[' || v[i + 11] != ']' || v[i + 5] != '-' || v[i + 8] != '-' {
        return false;
    }
    if !(v[i + 6] == '0' || v[i + 6] == '1') || !(v[i + 9] >= '0' && v[i + 9] <= '3') {
        return false;
    }
    let ghost t = token_text(v@, i as int);
    assert(t[4] == v@[i + 5] && t[7] == v@[i + 8]);
    assert(t.subrange(0, 4) == v@.subrange(i + 1, i + 1 + 4));
    assert(t.subrange(5, 7) == v@.subrange(i + 6, i + 6 + 2));
    assert(t.subrange(8, 10) == v@.subrange(i + 9, i + 9 + 2));
    read_decimal(v, i + 1, 4).is_some() && read_decimal(v, i + 6, 2).is_some() && read_decimal(
        v,
        i + 9,
        2,
    ).is_some()
}

/// The dates that the tokens of `markdown` name, each once, the earliest
/// first. Where a token names a day that the calendar does not have, the
/// result is the first such token instead.
pub fn parse_links(markdown: &str) -> (r: Result<Vec<Date>, MalformedReference>)
    ensures
        match r {
            Ok(v) => {
                &&& !has_malformed_token(markdown@)
                &&& dates_wf(v@)
                &&& dates_ascend(v@)
                &&& forall|d: Date| d.wf() ==> (v@.contains(d) <==> mentions(markdown@, d))
            },
            Err(e) => {
                &&& is_malformed_at(markdown@, e.at as int)
                &&& forall|i: int| i < e.at ==> !is_malformed_at(markdown@, i)
            },
        },
{
    let v = chars_of(markdown);
    links_of_chars(&v)
}

/// The dates that the tokens of `v` name, as `parse_links` gives them for a
/// string.
pub fn links_of_chars(v: &Vec<char>) -> (r: Result<Vec<Date>, MalformedReference>)
    ensures
        match r {
            Ok(out) => {
                &&& !has_malformed_token(v@)
                &&& dates_wf(out@)
                &&& dates_ascend(out@)
                &&& forall|d: Date| d.wf() ==> (out@.contains(d) <==> mentions(v@, d))
            },
            Err(e) => {
                &&& is_malformed_at(v@, e.at as int)
                &&& forall|i: int| i < e.at ==> !is_malformed_at(v@, i)
            },
        },
{
    let ghost s = v@;
    let mut found: Vec<u32> = Vec::new();
    let mut i: usize = 0;
    while i < v.len()
        invariant
            i <= v.len(),
            s == v@,
            strictly_increasing(found@),
            forall|j: int| j < i ==> !is_malformed_at(s, j),
            forall|d: Date|
                d.wf() ==> (found@.contains(d.spec_ordinal() as u32) <==> mentions_before(
                    s,
                    i as int,
                    d,
                )),
            forall|o: u32| #[trigger] found@.contains(o) ==> is_ordinal(o),
        decreases v.len() - i,
    {
        if token_at(v, i) {
            match Date::from_chars(v, i + 1, i + 11) {
                Some(date) => {
                    let ghost before = found@;
                    let o = date.ordinal();
                    insert(&mut found, o);
                    proof {
                        assert(token_names(s, i as int, date));
                        assert forall|d: Date| d.wf() implies (found@.contains(
                            d.spec_ordinal() as u32,
                        ) <==> mentions_before(s, i + 1, d)) by {
                            crate::data::date::lemma_ordinal_orders(d, date);
                            d.lemma_wf();
                            if mentions_before(s, i + 1, d) {
                                let k = choose|k: int| k < i + 1 && token_names(s, k, d);
                                if k < i {
                                    assert(mentions_before(s, i as int, d));
                                }
                            }
                            if before.contains(d.spec_ordinal() as u32) {
                                let k = choose|k: int| k < i && token_names(s, k, d);
                                assert(k < i + 1 && token_names(s, k, d));
                            }
                        }
                    }
                },
                None => {
                    return Err(MalformedReference { at: i });
                },
            }
        } else {
            proof {
                assert forall|d: Date| d.wf() implies (found@.contains(
                    d.spec_ordinal() as u32,
                ) <==> mentions_before(s, i + 1, d)) by {
                    if mentions_before(s, i + 1, d) {
                        let k = choose|k: int| k < i + 1 && token_names(s, k, d);
                        assert(k < i);
                        assert(mentions_before(s, i as int, d));
                    }
                    if mentions_before(s, i as int, d) {
                        let k = choose|k: int| k < i && token_names(s, k, d);
                        assert(k < i + 1 && token_names(s, k, d));
                    }
                }
            }
        }
        i = i + 1;
    }
    proof {
        assert forall|d: Date| d.wf() implies (found@.contains(d.spec_ordinal() as u32)
            <==> mentions(s, d)) by {
            if mentions(s, d) {
                let k = choose|k: int| token_names(s, k, d);
                assert(k < i && token_names(s, k, d));
            }
            if mentions_before(s, i as int, d) {
                let k = choose|k: int| k < i && token_names(s, k, d);
                assert(token_names(s, k, d));
            }
        }
        assert(!has_malformed_token(s)) by {
            if has_malformed_token(s) {
                let k = choose|k: int| is_malformed_at(s, k);
                assert(k < i);
            }
        }
    }
    let out = dates_of_ordinals(&found);
    proof {
        assert forall|d: Date| d.wf() implies (out@.contains(d) <==> mentions(s, d)) by {
            d.lemma_wf();
            if out@.contains(d) {
                let k = choose|k: int| 0 <= k < out@.len() && out@[k] == d;
                assert(found@[k] == d.spec_ordinal());
            }
            if found@.contains(d.spec_ordinal() as u32) {
                let k = choose|k: int|
                    0 <= k < found@.len() && found@[k] == d.spec_ordinal() as u32;
                crate::data::date::lemma_ordinal_orders(out@[k], d);
                assert(out@[k] == d);
            }
        }
    }
    Ok(out)
}

/// The dates with the given ordinals, in the same order.
pub fn dates_of_ordinals(ordinals: &Vec<u32>) -> (out: Vec<Date>)
    requires
        forall|o: u32| #[trigger] ordinals@.contains(o) ==> is_ordinal(o),
    ensures
        out@.len() == ordinals@.len(),
        dates_wf(out@),
        forall|k: int| 0 <= k < out@.len() ==> (#[trigger] out@[k]).spec_ordinal() == ordinals@[k],
        strictly_increasing(ordinals@) ==> dates_ascend(out@),
{
    let mut out: Vec<Date> = Vec::new();
    let mut k: usize = 0;
    while k < ordinals.len()
        invariant
            k <= ordinals.len(),
            out@.len() == k,
            forall|o: u32| #[trigger] ordinals@.contains(o) ==> is_ordinal(o),
            forall|j: int| 0 <= j < k ==> (#[trigger] out@[j]).wf(),
            forall|j: int| 0 <= j < k ==> (#[trigger] out@[j]).spec_ordinal() == ordinals@[j],
        decreases ordinals.len() - k,
    {
        assert(ordinals@.contains(ordinals@[k as int]));
        match Date::from_ordinal(ordinals[k]) {
            Some(d) => {
                out.push(d);
            },
            None => {
                assert(false);
            },
        }
        k = k + 1;
    }
    out
}

} // verus!
