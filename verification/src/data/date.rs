//! Calendar dates, the identity of journal entries.

use vstd::prelude::*;
use crate::calendar::day_number_of;
use crate::calendar::valid_date;
use crate::text::all_digits;
use crate::text::append_decimal;
use crate::text::chars_of;
use crate::text::decimal;
use crate::text::lemma_decimal_shape;
use crate::text::lemma_number_of_decimal;
use crate::text::number;
use crate::text::pow10;
use crate::text::push_char;
use crate::text::read_decimal;
use core::cmp::Ordering;
use vstd::std_specs::cmp::PartialOrdSpecImpl;

verus! {

/// The text of a date: four digits of the year, two of the month and two of
/// the day, with a hyphen between them.
pub open spec fn date_text(year: int, month: int, day: int) -> Seq<char> {
    decimal(year, 4) + seq!['-'] + decimal(month, 2) + seq!['-'] + decimal(day, 2)
}

/// `s` is made like the text of a date: ten characters, digits but for the
/// two hyphens.
pub open spec fn has_date_shape(s: Seq<char>) -> bool {
    &&& s.len() == 10
    &&& all_digits(s.subrange(0, 4))
    &&& s[4] == '-'
    &&& all_digits(s.subrange(5, 7))
    &&& s[7] == '-'
    &&& all_digits(s.subrange(8, 10))
}

/// The year that a text made like a date writes.
pub open spec fn text_year(s: Seq<char>) -> int {
    number(s.subrange(0, 4))
}

/// The month that a text made like a date writes.
pub open spec fn text_month(s: Seq<char>) -> int {
    number(s.subrange(5, 7))
}

/// The day that a text made like a date writes.
pub open spec fn text_day(s: Seq<char>) -> int {
    number(s.subrange(8, 10))
}

/// `s` is the text of a day that the calendar has.
pub open spec fn is_date_text(s: Seq<char>) -> bool {
    has_date_shape(s) && valid_date(text_year(s), text_month(s), text_day(s))
}

/// A day of the calendar, in a year from 0 to 9999.
#[derive(Clone, Copy, Debug, PartialEq, Eq, Ord, Hash)]
pub struct Date {
    year: u16,
    month: u8,
    day: u8,
}

impl Date {
    /// The calendar has this day, and its year has at most four digits.
    #[verifier::type_invariant]
    pub closed spec fn wf(self) -> bool {
        self.year <= 9999 && valid_date(self.year as int, self.month as int, self.day as int)
    }

    /// The year.
    pub closed spec fn spec_year(self) -> int {
        self.year as int
    }

    /// The month, from 1 to 12.
    pub closed spec fn spec_month(self) -> int {
        self.month as int
    }

    /// The day of the month, from 1.
    pub closed spec fn spec_day(self) -> int {
        self.day as int
    }

    /// The number by which dates are ordered and found again: the digits of
    /// the year, the month and the day, read as one number.
    pub open spec fn spec_ordinal(self) -> int {
        self.spec_year() * 10000 + self.spec_month() * 100 + self.spec_day()
    }

    /// The text of this date.
    pub open spec fn text(self) -> Seq<char> {
        date_text(self.spec_year(), self.spec_month(), self.spec_day())
    }

    /// What `wf` says of the three parts.
    pub proof fn lemma_wf(self)
        requires
            self.wf(),
        ensures
            0 <= self.spec_year() <= 9999,
            valid_date(self.spec_year(), self.spec_month(), self.spec_day()),
    {
    }

    /// The date of the given year, month and day, if the calendar has it and
    /// the year is no later than 9999.
    pub fn new(year: u16, month: u8, day: u8) -> (r: Option<Date>)
        ensures
            r is Some <==> year <= 9999 && valid_date(year as int, month as int, day as int),
            r matches Some(d) ==> d.wf() && d.spec_year() == year && d.spec_month() == month
                && d.spec_day() == day,
    {
        if year > 9999 {
            return None;
        }
        match day_number_of(year as i32, month as u32, day as u32) {
            Some(_) => Some(Date { year, month, day }),
            None => None,
        }
    }

    /// The year.
    pub fn year(&self) -> (r: u16)
        ensures
            r == self.spec_year(),
            r <= 9999,
    {
        proof {
            use_type_invariant(self);
        }
        self.year
    }

    /// The month, from 1 to 12.
    pub fn month(&self) -> (r: u8)
        ensures
            r == self.spec_month(),
            1 <= r <= 12,
    {
        proof {
            use_type_invariant(self);
        }
        self.month
    }

    /// The day of the month, from 1.
    pub fn day_of_month(&self) -> (r: u8)
        ensures
            r == self.spec_day(),
            1 <= r <= 31,
    {
        proof {
            use_type_invariant(self);
        }
        self.day
    }

    /// The number by which dates are ordered and found again.
    pub fn ordinal(&self) -> (r: u32)
        ensures
            r == self.spec_ordinal(),
            self.wf(),
    {
        proof {
            use_type_invariant(self);
        }
        self.year as u32 * 10000 + self.month as u32 * 100 + self.day as u32
    }

    /// The date with the given ordinal, if there is one.
    pub fn from_ordinal(ordinal: u32) -> (r: Option<Date>)
        ensures
            r is Some <==> is_ordinal(ordinal),
            r matches Some(d) ==> d.wf() && d.spec_ordinal() == ordinal,
    {
        let year: u32 = ordinal / 10000;
        let month: u32 = (ordinal / 100) % 100;
        let day: u32 = ordinal % 100;
        if year > 9999 {
            assert forall|d: Date| d.wf() implies #[trigger] d.spec_ordinal() != ordinal by {
                d.lemma_wf();
            }
            return None;
        }
        let r = Date::new(year as u16, month as u8, day as u8);
        proof {
            assert(ordinal == year * 10000 + month * 100 + day);
            match r {
                Some(d) => {
                    assert(d.wf() && d.spec_ordinal() == ordinal);
                },
                None => {
                    assert forall|d: Date| d.wf() implies #[trigger] d.spec_ordinal()
                        != ordinal by {
                        d.lemma_wf();
                        if d.spec_ordinal() == ordinal {
                            assert(d.spec_day() == day);
                            assert(d.spec_month() == month);
                            assert(d.spec_year() == year);
                        }
                    }
                },
            }
        }
        r
    }

    /// The text of this date, as `YYYY-MM-DD`.
    pub fn to_string(&self) -> (s: String)
        ensures
            s@ == self.text(),
    {
        let mut s = String::new();
        append_decimal(&mut s, self.year as u32, 4);
        push_char(&mut s, '-');
        append_decimal(&mut s, self.month as u32, 2);
        push_char(&mut s, '-');
        append_decimal(&mut s, self.day as u32, 2);
        assert(s@ == self.text());
        s
    }

    /// Reads a date from its text. The result is `None` unless the text is
    /// exactly `YYYY-MM-DD` and the calendar has that day.
    pub fn from_str(s: &str) -> (r: Option<Date>)
        ensures
            r is Some <==> is_date_text(s@),
            r matches Some(d) ==> d.wf() && d.spec_year() == text_year(s@) && d.spec_month()
                == text_month(s@) && d.spec_day() == text_day(s@),
    {
        let v = chars_of(s);
        assert(v@.subrange(0, v.len() as int) == s@);
        Date::from_chars(&v, 0, v.len())
    }

    /// Reads a date from the characters `v[from..to]`, as `from_str` does
    /// from a string.
    pub fn from_chars(v: &Vec<char>, from: usize, to: usize) -> (r: Option<Date>)
        requires
            from <= to <= v.len(),
        ensures
            r is Some <==> is_date_text(v@.subrange(from as int, to as int)),
            r matches Some(d) ==> {
                let s = v@.subrange(from as int, to as int);
                d.wf() && d.spec_year() == text_year(s) && d.spec_month() == text_month(s)
                    && d.spec_day() == text_day(s)
            },
    {
        let ghost s = v@.subrange(from as int, to as int);
        if to - from != 10 {
            return None;
        }
        assert(s.subrange(0, 4) == v@.subrange(from as int, from + 4));
        assert(s.subrange(5, 7) == v@.subrange(from + 5, from + 5 + 2));
        assert(s.subrange(8, 10) == v@.subrange(from + 8, from + 8 + 2));
        assert(s[4] == v@[from + 4]);
        assert(s[7] == v@[from + 7]);
        let year = match read_decimal(v, from, 4) {
            Some(n) => n,
            None => {
                return None;
            },
        };
        if v[from + 4] != '-' {
            return None;
        }
        let month = match read_decimal(v, from + 5, 2) {
            Some(n) => n,
            None => {
                return None;
            },
        };
        if v[from + 7] != '-' {
            return None;
        }
        let day = match read_decimal(v, from + 8, 2) {
            Some(n) => n,
            None => {
                return None;
            },
        };
        proof {
            crate::text::lemma_number_bound(s.subrange(0, 4));
            crate::text::lemma_number_bound(s.subrange(5, 7));
            crate::text::lemma_number_bound(s.subrange(8, 10));
            reveal_with_fuel(pow10, 5);
        }
        Date::new(year as u16, month as u8, day as u8)
    }
}

impl PartialOrd for Date {
    /// Dates are ordered by the year, then the month, then the day, which
    /// is the order of their ordinals.
    fn partial_cmp(&self, other: &Date) -> (r: Option<Ordering>) {
        proof {
            use_type_invariant(self);
            use_type_invariant(other);
        }
        let a = self.ordinal();
        let b = other.ordinal();
        if a < b {
            Some(Ordering::Less)
        } else if a > b {
            Some(Ordering::Greater)
        } else {
            Some(Ordering::Equal)
        }
    }
}

impl PartialOrdSpecImpl for Date {
    open spec fn obeys_partial_cmp_spec() -> bool {
        true
    }

    open spec fn partial_cmp_spec(&self, other: &Date) -> Option<Ordering> {
        if self.spec_ordinal() < other.spec_ordinal() {
            Some(Ordering::Less)
        } else if self.spec_ordinal() > other.spec_ordinal() {
            Some(Ordering::Greater)
        } else {
            Some(Ordering::Equal)
        }
    }
}

/// `o` is the ordinal of a day of the calendar.
pub open spec fn is_ordinal(o: u32) -> bool {
    exists|d: Date| d.wf() && #[trigger] d.spec_ordinal() == o
}

/// The text of a year, a month and a day is made like a date, and writes
/// the three numbers.
pub proof fn lemma_date_text_fields(year: int, month: int, day: int)
    requires
        0 <= year <= 9999,
        0 <= month <= 99,
        0 <= day <= 99,
    ensures
        has_date_shape(date_text(year, month, day)),
        text_year(date_text(year, month, day)) == year,
        text_month(date_text(year, month, day)) == month,
        text_day(date_text(year, month, day)) == day,
{
    let s = date_text(year, month, day);
    lemma_decimal_shape(year, 4);
    lemma_decimal_shape(month, 2);
    lemma_decimal_shape(day, 2);
    reveal_with_fuel(pow10, 5);
    lemma_number_of_decimal(year, 4);
    lemma_number_of_decimal(month, 2);
    lemma_number_of_decimal(day, 2);
    assert(s.subrange(0, 4) == decimal(year, 4));
    assert(s.subrange(5, 7) == decimal(month, 2));
    assert(s.subrange(8, 10) == decimal(day, 2));
}

/// Reading the text of a date gives the date back.
pub proof fn lemma_date_text_round_trip(d: Date)
    requires
        d.wf(),
    ensures
        is_date_text(d.text()),
        text_year(d.text()) == d.spec_year(),
        text_month(d.text()) == d.spec_month(),
        text_day(d.text()) == d.spec_day(),
{
    d.lemma_wf();
    let y = d.spec_year();
    let m = d.spec_month();
    let dd = d.spec_day();
    let s = d.text();
    lemma_decimal_shape(y, 4);
    lemma_decimal_shape(m, 2);
    lemma_decimal_shape(dd, 2);
    reveal_with_fuel(pow10, 5);
    lemma_number_of_decimal(y, 4);
    lemma_number_of_decimal(m, 2);
    lemma_number_of_decimal(dd, 2);
    assert(s.subrange(0, 4) == decimal(y, 4));
    assert(s.subrange(5, 7) == decimal(m, 2));
    assert(s.subrange(8, 10) == decimal(dd, 2));
}

/// The order of two dates is the order of their ordinals, and two dates with
/// one ordinal are one date.
pub proof fn lemma_ordinal_orders(a: Date, b: Date)
    requires
        a.wf(),
        b.wf(),
    ensures
        a.spec_ordinal() == b.spec_ordinal() <==> a == b,
        a.spec_ordinal() < b.spec_ordinal() <==> (a.spec_year() < b.spec_year() || (a.spec_year()
            == b.spec_year() && (a.spec_month() < b.spec_month() || (a.spec_month()
            == b.spec_month() && a.spec_day() < b.spec_day())))),
{
    a.lemma_wf();
    b.lemma_wf();
}

} // verus!
