//! The proleptic Gregorian calendar: which dates exist, and the number of
//! each day, counted from January 1 of year 1, which is day 1.
//!
//! The day numbers themselves are computed by `chrono`; what this module
//! proves is what follows from them.

use vstd::prelude::*;
use chrono::Datelike;
use chrono::NaiveDate;

verus! {

/// The day number of 1970-01-01.
pub const EPOCH_DAY_NUMBER: i32 = 719_163;

/// The day number of 9999-12-31.
pub const LAST_DAY_NUMBER: i32 = 3_652_059;

/// Whether `year` is a leap year.
pub open spec fn is_leap_year(year: int) -> bool {
    year % 4 == 0 && (year % 100 != 0 || year % 400 == 0)
}

/// The number of days of `month` in `year`.
pub open spec fn days_in_month(year: int, month: int) -> int {
    if month == 2 {
        if is_leap_year(year) {
            29
        } else {
            28
        }
    } else if month == 4 || month == 6 || month == 9 || month == 11 {
        30
    } else {
        31
    }
}

/// The calendar has a day `day` in month `month` of year `year`.
pub open spec fn valid_date(year: int, month: int, day: int) -> bool {
    1 <= month <= 12 && 1 <= day <= days_in_month(year, month)
}

/// The number of days of `year` that lie before the first of `month`.
pub open spec fn days_before_month(year: int, month: int) -> int {
    let leap: int = if month > 2 && is_leap_year(year) {
        1
    } else {
        0
    };
    let base: int = if month <= 1 {
        0
    } else if month == 2 {
        31
    } else if month == 3 {
        59
    } else if month == 4 {
        90
    } else if month == 5 {
        120
    } else if month == 6 {
        151
    } else if month == 7 {
        181
    } else if month == 8 {
        212
    } else if month == 9 {
        243
    } else if month == 10 {
        273
    } else if month == 11 {
        304
    } else {
        334
    };
    base + leap
}

/// The number of days from January 1 of year 1 up to, and without, January 1
/// of `year`: 365 for each year, and one more for each leap year.
pub open spec fn days_before_year(year: int) -> int {
    let y = year - 1;
    365 * y + y / 4 - y / 100 + y / 400
}

/// The number of the day `year`-`month`-`day`, where 0001-01-01 is day 1.
pub open spec fn day_number(year: int, month: int, day: int) -> int {
    days_before_year(year) + days_before_month(year, month) + day
}

/// `year`-`month`-`day` is an existing date, and it is day `n`.
pub open spec fn is_date_of_day(year: int, month: int, day: int, n: int) -> bool {
    valid_date(year, month, day) && day_number(year, month, day) == n
}

/// The date of the day with number `n`, as year, month and day.
pub open spec fn date_of_day(n: int) -> (int, int, int) {
    choose|t: (int, int, int)| is_date_of_day(t.0, t.1, t.2, n)
}

/// The day number of a date, computed by `chrono::NaiveDate::from_ymd_opt`
/// and `Datelike::num_days_from_ce`. The contract states what their
/// documentation says: the first gives a date exactly when the calendar has
/// that day, and the second counts its days from 0001-01-01 as day 1, each
/// year with 365 days and each leap year with one more.
#[verifier::external_body]
pub(crate) fn day_number_of(year: i32, month: u32, day: u32) -> (r: Option<i32>)
    requires
        0 <= year <= 9999,
    ensures
        r is Some <==> valid_date(year as int, month as int, day as int),
        r matches Some(n) ==> n as int == day_number(year as int, month as int, day as int),
{
    match NaiveDate::from_ymd_opt(year, month, day) {
        Some(date) => Some(date.num_days_from_ce()),
        None => None,
    }
}

/// The date of a day number, computed by
/// `chrono::NaiveDate::from_num_days_from_ce_opt` and read with
/// `Datelike::year`, `month` and `day`. The contract states what their
/// documentation says: between 1970-01-01 and 9999-12-31 there is such a
/// date, an existing one, and it is the date of that day.
#[verifier::external_body]
pub(crate) fn date_of_day_number(n: i32) -> (r: Option<(i32, u32, u32)>)
    requires
        EPOCH_DAY_NUMBER <= n <= LAST_DAY_NUMBER,
    ensures
        r is Some,
        r matches Some(t) ==> is_date_of_day(t.0 as int, t.1 as int, t.2 as int, n as int),
{
    match NaiveDate::from_num_days_from_ce_opt(n) {
        Some(date) => Some((date.year(), date.month(), date.day())),
        None => None,
    }
}

/// A year lasts 365 days, and a leap year 366.
pub proof fn lemma_year_length(year: int)
    ensures
        days_before_year(year + 1) - days_before_year(year) == if is_leap_year(year) {
            366int
        } else {
            365int
        },
{
}

/// Later years start later, by at least 365 days for each year between.
pub proof fn lemma_years_ordered(a: int, b: int)
    requires
        a <= b,
    ensures
        days_before_year(a) + 365 * (b - a) <= days_before_year(b),
{
}

/// The days of an existing date lie within its year.
pub proof fn lemma_day_within_year(year: int, month: int, day: int)
    requires
        valid_date(year, month, day),
    ensures
        days_before_year(year) < day_number(year, month, day) <= days_before_year(year + 1),
{
    lemma_year_length(year);
}

/// Two existing dates with the same day number are the same date.
pub proof fn lemma_day_number_injective(
    y1: int,
    m1: int,
    d1: int,
    y2: int,
    m2: int,
    d2: int,
)
    requires
        valid_date(y1, m1, d1),
        valid_date(y2, m2, d2),
        day_number(y1, m1, d1) == day_number(y2, m2, d2),
    ensures
        y1 == y2,
        m1 == m2,
        d1 == d2,
{
    lemma_day_within_year(y1, m1, d1);
    lemma_day_within_year(y2, m2, d2);
    if y1 < y2 {
        lemma_years_ordered(y1 + 1, y2);
    }
    if y2 < y1 {
        lemma_years_ordered(y2 + 1, y1);
    }
}

/// The date of the day number of an existing date is that date.
pub proof fn lemma_date_of_day_number(year: int, month: int, day: int)
    requires
        valid_date(year, month, day),
    ensures
        date_of_day(day_number(year, month, day)) == (year, month, day),
{
    let n = day_number(year, month, day);
    let witness = (year, month, day);
    assert(is_date_of_day(witness.0, witness.1, witness.2, n));
    let t = date_of_day(n);
    lemma_day_number_injective(t.0, t.1, t.2, year, month, day);
}

/// The date of the day after `year`-`month`-`day`.
pub open spec fn next_date(year: int, month: int, day: int) -> (int, int, int) {
    if day < days_in_month(year, month) {
        (year, month, day + 1)
    } else if month < 12 {
        (year, month + 1, 1)
    } else {
        (year + 1, 1, 1)
    }
}

/// The day after an existing date exists, and its number is one more.
pub proof fn lemma_next_date(year: int, month: int, day: int)
    requires
        valid_date(year, month, day),
    ensures
        ({
            let n = next_date(year, month, day);
            valid_date(n.0, n.1, n.2) && day_number(n.0, n.1, n.2) == day_number(year, month, day)
                + 1
        }),
{
    lemma_year_length(year);
}

/// Every day from 1970-01-01 on has a date.
pub proof fn lemma_day_has_date(n: int)
    requires
        n >= EPOCH_DAY_NUMBER,
    ensures
        is_date_of_day(date_of_day(n).0, date_of_day(n).1, date_of_day(n).2, n),
    decreases n - EPOCH_DAY_NUMBER,
{
    if n == EPOCH_DAY_NUMBER {
        let first = (1970int, 1int, 1int);
        assert(is_date_of_day(first.0, first.1, first.2, n));
    } else {
        lemma_day_has_date(n - 1);
        let t = date_of_day(n - 1);
        lemma_next_date(t.0, t.1, t.2);
        let u = next_date(t.0, t.1, t.2);
        assert(is_date_of_day(u.0, u.1, u.2, n));
    }
}

/// A day between 1970-01-01 and 9999-12-31 lies in a year from 1970 to 9999.
pub proof fn lemma_year_of_day_in_range(year: int, month: int, day: int)
    requires
        valid_date(year, month, day),
        EPOCH_DAY_NUMBER <= day_number(year, month, day) <= LAST_DAY_NUMBER,
    ensures
        1970 <= year <= 9999,
{
    lemma_day_within_year(year, month, day);
    if year < 1970 {
        lemma_years_ordered(year + 1, 1970);
    }
    if year > 9999 {
        lemma_years_ordered(10000, year);
    }
}

} // verus!
