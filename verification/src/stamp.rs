//! The text of an instant, and the instant of a text.
//!
//! An instant is a count of seconds or of milliseconds since
//! 1970-01-01T00:00:00Z. Its text is always written in UTC, with `Z` at the
//! end, and with no fraction for seconds and three digits of fraction for
//! milliseconds. A text that is read may give another offset from UTC in
//! place of `Z`, as `+09:00` or `-05:00`; the offset is taken into the
//! instant and is not kept.

use vstd::prelude::*;
use crate::calendar::date_of_day;
use crate::calendar::date_of_day_number;
use crate::calendar::day_number;
use crate::calendar::day_number_of;
use crate::calendar::valid_date;
use crate::calendar::EPOCH_DAY_NUMBER;
use crate::data::date::date_text;
use crate::data::date::has_date_shape;
use crate::data::date::text_day;
use crate::data::date::text_month;
use crate::data::date::text_year;
use crate::text::all_digits;
use crate::text::append_decimal;
use crate::text::chars_of;
use crate::text::decimal;
use crate::text::number;
use crate::text::push_char;
use crate::text::read_decimal;

verus! {

/// The last second that a text of four digits of year can name:
/// 9999-12-31T23:59:59Z.
pub const MAX_SECONDS: i64 = 253_402_300_799;

/// The last millisecond of that second.
pub const MAX_MILLIS: i64 = 253_402_300_799_999;

/// What an instant counts.
#[derive(Clone, Copy, Debug, PartialEq, Eq)]
pub enum Precision {
    /// Whole seconds.
    Seconds,
    /// Milliseconds.
    Millis,
}

/// Why a text gives no instant, or two instants no third.
#[derive(Clone, Copy, Debug, PartialEq, Eq)]
pub enum ErrorKind {
    /// The text is not made as the text of an instant is, or names a day or
    /// a time of day that there is not.
    Format,
    /// The instant lies before 1970-01-01T00:00:00Z or after
    /// 9999-12-31T23:59:59Z, the last millisecond of it included.
    Range,
    /// A duration holds a part that is finer than what the instant counts.
    Precision,
}

/// The number of counts in one second.
pub open spec fn units_per_second(p: Precision) -> int {
    match p {
        Precision::Seconds => 1,
        Precision::Millis => 1000,
    }
}

/// The greatest count of an instant.
pub open spec fn max_value(p: Precision) -> int {
    match p {
        Precision::Seconds => MAX_SECONDS as int,
        Precision::Millis => MAX_MILLIS as int,
    }
}

/// The index at which the offset from UTC starts in a text.
pub open spec fn zone_start(p: Precision) -> int {
    match p {
        Precision::Seconds => 19,
        Precision::Millis => 23,
    }
}

/// The greatest number that the seconds of a text may write. The text of
/// milliseconds admits `60`, the notation of a leap second, which is read as
/// the first second of the next minute.
pub open spec fn max_second(p: Precision) -> int {
    match p {
        Precision::Seconds => 59,
        Precision::Millis => 60,
    }
}

/// The text of the day and the time of day of the second `secs`, as
/// `YYYY-MM-DDTHH:MM:SS`.
pub open spec fn clock_text(secs: int) -> Seq<char> {
    let date = date_of_day(secs / 86400 + EPOCH_DAY_NUMBER);
    let rest = secs % 86400;
    date_text(date.0, date.1, date.2) + seq!['T'] + decimal(rest / 3600, 2) + seq![':'] + decimal(
        rest / 60 % 60,
        2,
    ) + seq![':'] + decimal(rest % 60, 2)
}

/// The text of the instant with the count `value`.
pub open spec fn canonical_text(p: Precision, value: int) -> Seq<char> {
    match p {
        Precision::Seconds => clock_text(value) + seq!['Z'],
        Precision::Millis => clock_text(value / 1000) + seq!['.'] + decimal(value % 1000, 3)
            + seq!['Z'],
    }
}

/// The characters from `zone_start` on are `Z` alone.
pub open spec fn has_utc_zone(s: Seq<char>, p: Precision) -> bool {
    s.len() == zone_start(p) + 1 && s[zone_start(p)] == 'Z'
}

/// The characters from `zone_start` on are an offset, as `+09:00`.
pub open spec fn has_offset_zone(s: Seq<char>, p: Precision) -> bool {
    let z = zone_start(p);
    &&& s.len() == z + 6
    &&& (s[z] == '+' || s[z] == '-')
    &&& all_digits(s.subrange(z + 1, z + 3))
    &&& s[z + 3] == ':'
    &&& all_digits(s.subrange(z + 4, z + 6))
}

/// `s` is made as the text of an instant is: digits, separators, the
/// fraction that `p` asks for, and `Z` or an offset, each at its place.
pub open spec fn has_stamp_shape(s: Seq<char>, p: Precision) -> bool {
    &&& s.len() >= 19
    &&& has_date_shape(s.subrange(0, 10))
    &&& (s[10] == 'T' || s[10] == 't' || s[10] == ' ')
    &&& all_digits(s.subrange(11, 13))
    &&& s[13] == ':'
    &&& all_digits(s.subrange(14, 16))
    &&& s[16] == ':'
    &&& all_digits(s.subrange(17, 19))
    &&& (p == Precision::Millis ==> s.len() >= 23 && s[19] == '.' && all_digits(
        s.subrange(20, 23),
    ))
    &&& (has_utc_zone(s, p) || has_offset_zone(s, p))
}

/// The hour that the text writes.
pub open spec fn stamp_hour(s: Seq<char>) -> int {
    number(s.subrange(11, 13))
}

/// The minute that the text writes.
pub open spec fn stamp_minute(s: Seq<char>) -> int {
    number(s.subrange(14, 16))
}

/// The second that the text writes.
pub open spec fn stamp_second(s: Seq<char>) -> int {
    number(s.subrange(17, 19))
}

/// The fraction of a second that the text writes, in counts.
pub open spec fn stamp_fraction(s: Seq<char>, p: Precision) -> int {
    match p {
        Precision::Seconds => 0,
        Precision::Millis => number(s.subrange(20, 23)),
    }
}

/// The hours of the offset that the text writes, 0 for `Z`.
pub open spec fn zone_hours(s: Seq<char>, p: Precision) -> int {
    if has_utc_zone(s, p) {
        0
    } else {
        number(s.subrange(zone_start(p) + 1, zone_start(p) + 3))
    }
}

/// The minutes of the offset that the text writes, 0 for `Z`.
pub open spec fn zone_minutes(s: Seq<char>, p: Precision) -> int {
    if has_utc_zone(s, p) {
        0
    } else {
        number(s.subrange(zone_start(p) + 4, zone_start(p) + 6))
    }
}

/// The offset from UTC that the text writes, in seconds: what the clock of
/// the text is ahead of UTC.
pub open spec fn zone_offset(s: Seq<char>, p: Precision) -> int {
    let ahead = zone_hours(s, p) * 3600 + zone_minutes(s, p) * 60;
    if s[zone_start(p)] == '-' {
        -ahead
    } else {
        ahead
    }
}

/// `s` is the text of an instant: it is made as one, the calendar has its
/// day, the day has its time, and the offset is less than a day.
pub open spec fn denotes_instant(s: Seq<char>, p: Precision) -> bool {
    let d = s.subrange(0, 10);
    &&& has_stamp_shape(s, p)
    &&& valid_date(text_year(d), text_month(d), text_day(d))
    &&& stamp_hour(s) <= 23
    &&& stamp_minute(s) <= 59
    &&& stamp_second(s) <= max_second(p)
    &&& zone_hours(s, p) <= 23
    &&& zone_minutes(s, p) <= 59
}

/// The second of UTC that the clock of the text shows.
pub open spec fn stamp_seconds(s: Seq<char>, p: Precision) -> int {
    let d = s.subrange(0, 10);
    (day_number(text_year(d), text_month(d), text_day(d)) - EPOCH_DAY_NUMBER) * 86400 + stamp_hour(
        s,
    ) * 3600 + stamp_minute(s) * 60 + stamp_second(s) - zone_offset(s, p)
}

/// The count of the instant of the text.
pub open spec fn stamp_value(s: Seq<char>, p: Precision) -> int {
    stamp_seconds(s, p) * units_per_second(p) + stamp_fraction(s, p)
}

/// What reading `s` gives: the count of its instant, or why there is none.
pub open spec fn parse_spec(s: Seq<char>, p: Precision) -> Result<int, ErrorKind> {
    if !denotes_instant(s, p) {
        Err(ErrorKind::Format)
    } else if 0 <= stamp_value(s, p) <= max_value(p) {
        Ok(stamp_value(s, p))
    } else {
        Err(ErrorKind::Range)
    }
}

/// `s` is written as this library writes an instant: in UTC, with `T`
/// between the day and the time.
pub open spec fn is_canonical(s: Seq<char>, p: Precision) -> bool {
    denotes_instant(s, p) && has_utc_zone(s, p) && s[10] == 'T' && stamp_second(s) <= 59
}

/// The text of a second is made as this library writes it, and reading it
/// gives the second back.
pub proof fn lemma_clock_text(secs: int)
    requires
        0 <= secs <= MAX_SECONDS,
    ensures
        ({
            let s = clock_text(secs);
            let d = s.subrange(0, 10);
            &&& s.len() == 19
            &&& has_date_shape(d)
            &&& valid_date(text_year(d), text_month(d), text_day(d))
            &&& s[10] == 'T'
            &&& all_digits(s.subrange(11, 13))
            &&& s[13] == ':'
            &&& all_digits(s.subrange(14, 16))
            &&& s[16] == ':'
            &&& all_digits(s.subrange(17, 19))
            &&& stamp_hour(s) <= 23
            &&& stamp_minute(s) <= 59
            &&& stamp_second(s) <= 59
            &&& (day_number(text_year(d), text_month(d), text_day(d)) - EPOCH_DAY_NUMBER) * 86400
                + stamp_hour(s) * 3600 + stamp_minute(s) * 60 + stamp_second(s) == secs
        }),
{
    let n = secs / 86400 + EPOCH_DAY_NUMBER;
    let rest = secs % 86400;
    crate::calendar::lemma_day_has_date(n);
    let date = date_of_day(n);
    crate::calendar::lemma_year_of_day_in_range(date.0, date.1, date.2);
    crate::data::date::lemma_date_text_fields(date.0, date.1, date.2);
    let dt = date_text(date.0, date.1, date.2);
    let h = rest / 3600;
    let m = rest / 60 % 60;
    let x = rest % 60;
    crate::text::lemma_decimal_shape(h, 2);
    crate::text::lemma_decimal_shape(m, 2);
    crate::text::lemma_decimal_shape(x, 2);
    reveal_with_fuel(crate::text::pow10, 3);
    crate::text::lemma_number_of_decimal(h, 2);
    crate::text::lemma_number_of_decimal(m, 2);
    crate::text::lemma_number_of_decimal(x, 2);
    let s = clock_text(secs);
    assert(dt.len() == 10);
    assert(s.len() == 19);
    assert(s.subrange(0, 10) == dt);
    assert(s.subrange(11, 13) == decimal(h, 2));
    assert(s.subrange(14, 16) == decimal(m, 2));
    assert(s.subrange(17, 19) == decimal(x, 2));
}

/// The text of an instant is written as this library writes one, and
/// reading it gives the instant back.
pub proof fn lemma_canonical_parses(p: Precision, value: int)
    requires
        0 <= value <= max_value(p),
    ensures
        is_canonical(canonical_text(p, value), p),
        parse_spec(canonical_text(p, value), p) == Ok::<int, ErrorKind>(value),
{
    let s = canonical_text(p, value);
    match p {
        Precision::Seconds => {
            let c = clock_text(value);
            lemma_clock_text(value);
            assert(s.subrange(0, 10) == c.subrange(0, 10));
            assert(s.subrange(11, 13) == c.subrange(11, 13));
            assert(s.subrange(14, 16) == c.subrange(14, 16));
            assert(s.subrange(17, 19) == c.subrange(17, 19));
            assert(s[10] == c[10] && s[13] == c[13] && s[16] == c[16]);
            assert(has_utc_zone(s, p));
        },
        Precision::Millis => {
            let secs = value / 1000;
            let f = value % 1000;
            let c = clock_text(secs);
            lemma_clock_text(secs);
            crate::text::lemma_decimal_shape(f, 3);
            reveal_with_fuel(crate::text::pow10, 4);
            crate::text::lemma_number_of_decimal(f, 3);
            assert(s.len() == 24);
            assert(s.subrange(0, 10) == c.subrange(0, 10));
            assert(s.subrange(11, 13) == c.subrange(11, 13));
            assert(s.subrange(14, 16) == c.subrange(14, 16));
            assert(s.subrange(17, 19) == c.subrange(17, 19));
            assert(s[10] == c[10] && s[13] == c[13] && s[16] == c[16]);
            assert(s[19] == '.');
            assert(s.subrange(20, 23) == decimal(f, 3));
            assert(has_utc_zone(s, p));
        },
    }
}

/// Whatever text is read, writing the instant that it gives and reading
/// that text again gives the same instant, and the text that was written is
/// in the form in which this library writes.
pub proof fn lemma_round_trip(s: Seq<char>, p: Precision)
    requires
        parse_spec(s, p) is Ok,
    ensures
        is_canonical(canonical_text(p, parse_spec(s, p)->Ok_0), p),
        parse_spec(canonical_text(p, parse_spec(s, p)->Ok_0), p) == parse_spec(s, p),
{
    lemma_canonical_parses(p, parse_spec(s, p)->Ok_0);
}

/// Reads two digits of `v` at `from`, as a number below 100.
fn read_two(v: &Vec<char>, from: usize) -> (r: Option<u32>)
    requires
        from + 2 <= v.len(),
    ensures
        r is Some <==> all_digits(v@.subrange(from as int, from + 2)),
        r matches Some(n) ==> n == number(v@.subrange(from as int, from + 2)) && n < 100,
{
    let r = read_decimal(v, from, 2);
    proof {
        if r is Some {
            crate::text::lemma_number_bound(v@.subrange(from as int, from + 2));
            reveal_with_fuel(crate::text::pow10, 3);
        }
    }
    r
}

/// Reads the instant of a text. The result is the count of the instant, or
/// why the text gives none.
pub fn parse_stamp(s: &str, p: Precision) -> (r: Result<i64, ErrorKind>)
    ensures
        r matches Ok(v) ==> parse_spec(s@, p) == Ok::<int, ErrorKind>(v as int),
        r matches Err(e) ==> parse_spec(s@, p) == Err::<int, ErrorKind>(e),
{
    let v = chars_of(s);
    parse_chars(&v, p)
}

/// Reads the instant of the text `v`, as `parse_stamp` does from a string.
pub fn parse_chars(v: &Vec<char>, p: Precision) -> (r: Result<i64, ErrorKind>)
    ensures
        r matches Ok(x) ==> parse_spec(v@, p) == Ok::<int, ErrorKind>(x as int),
        r matches Err(e) ==> parse_spec(v@, p) == Err::<int, ErrorKind>(e),
{
    let ghost s = v@;
    let z: usize = match p {
        Precision::Seconds => 19,
        Precision::Millis => 23,
    };
    let n = v.len();
    if n != z + 1 && n != z + 6 {
        return Err(ErrorKind::Format);
    }
    let ghost d = s.subrange(0, 10);
    proof {
        assert(d.subrange(0, 4) == s.subrange(0, 4));
        assert(d.subrange(5, 7) == s.subrange(5, 7));
        assert(d.subrange(8, 10) == s.subrange(8, 10));
        assert(d[4] == s[4] && d[7] == s[7]);
    }
    let year = match read_decimal(v, 0, 4) {
        Some(x) => x,
        None => {
            return Err(ErrorKind::Format);
        },
    };
    proof {
        crate::text::lemma_number_bound(s.subrange(0, 4));
        reveal_with_fuel(crate::text::pow10, 5);
    }
    let month = match read_two(v, 5) {
        Some(x) => x,
        None => {
            return Err(ErrorKind::Format);
        },
    };
    let day = match read_two(v, 8) {
        Some(x) => x,
        None => {
            return Err(ErrorKind::Format);
        },
    };
    let hour = match read_two(v, 11) {
        Some(x) => x,
        None => {
            return Err(ErrorKind::Format);
        },
    };
    let minute = match read_two(v, 14) {
        Some(x) => x,
        None => {
            return Err(ErrorKind::Format);
        },
    };
    let second = match read_two(v, 17) {
        Some(x) => x,
        None => {
            return Err(ErrorKind::Format);
        },
    };
    if v[4] != '-' || v[7] != '-' || v[13] != ':' || v[16] != ':' {
        return Err(ErrorKind::Format);
    }
    if !(v[10] == 'T' || v[10] == 't' || v[10] == ' ') {
        return Err(ErrorKind::Format);
    }
    let mut fraction: u32 = 0;
    let mut units: i64 = 1;
    let mut last_second: u32 = 59;
    match p {
        Precision::Seconds => {},
        Precision::Millis => {
            if v[19] != '.' {
                return Err(ErrorKind::Format);
            }
            match read_decimal(v, 20, 3) {
                Some(x) => {
                    proof {
                        crate::text::lemma_number_bound(s.subrange(20, 23));
                        reveal_with_fuel(crate::text::pow10, 4);
                    }
                    fraction = x;
                },
                None => {
                    return Err(ErrorKind::Format);
                },
            }
            units = 1000;
            last_second = 60;
        },
    }
    let mut ahead: i64 = 0;
    let mut zone_h: u32 = 0;
    let mut zone_m: u32 = 0;
    if n == z + 1 {
        if v[z] != 'Z' {
            return Err(ErrorKind::Format);
        }
    } else {
        if !(v[z] == '+' || v[z] == '-') || v[z + 3] != ':' {
            return Err(ErrorKind::Format);
        }
        zone_h = match read_two(v, z + 1) {
            Some(x) => x,
            None => {
                return Err(ErrorKind::Format);
            },
        };
        zone_m = match read_two(v, z + 4) {
            Some(x) => x,
            None => {
                return Err(ErrorKind::Format);
            },
        };
        ahead = zone_h as i64 * 3600 + zone_m as i64 * 60;
        if v[z] == '-' {
            ahead = -ahead;
        }
    }
    assert(has_stamp_shape(s, p));
    assert(zone_h == zone_hours(s, p) && zone_m == zone_minutes(s, p));
    assert(ahead == zone_offset(s, p));
    if hour > 23 || minute > 59 || second > last_second || zone_h > 23 || zone_m > 59 {
        return Err(ErrorKind::Format);
    }
    let days = match day_number_of(year as i32, month, day) {
        Some(x) => x,
        None => {
            return Err(ErrorKind::Format);
        },
    };
    assert(denotes_instant(s, p));
    let seconds: i64 = (days as i64 - EPOCH_DAY_NUMBER as i64) * 86400 + hour as i64 * 3600
        + minute as i64 * 60 + second as i64 - ahead;
    assert(seconds == stamp_seconds(s, p));
    let value: i64 = seconds * units + fraction as i64;
    assert(value == stamp_value(s, p));
    let max: i64 = match p {
        Precision::Seconds => MAX_SECONDS,
        Precision::Millis => MAX_MILLIS,
    };
    if value < 0 || value > max {
        Err(ErrorKind::Range)
    } else {
        Ok(value)
    }
}

/// Appends the text of the day and the time of day of the second `secs`.
pub fn append_clock(out: &mut String, secs: i64)
    requires
        0 <= secs <= MAX_SECONDS,
    ensures
        final(out)@ == old(out)@ + clock_text(secs as int),
{
    let days: i64 = secs / 86400;
    let rest: i64 = secs % 86400;
    let n: i32 = (days + EPOCH_DAY_NUMBER as i64) as i32;
    let (year, month, day) = match date_of_day_number(n) {
        Some(t) => t,
        None => {
            return ;
        },
    };
    proof {
        crate::calendar::lemma_date_of_day_number(year as int, month as int, day as int);
        crate::calendar::lemma_year_of_day_in_range(year as int, month as int, day as int);
    }
    let ghost start = out@;
    append_decimal(out, year as u32, 4);
    push_char(out, '-');
    append_decimal(out, month, 2);
    push_char(out, '-');
    append_decimal(out, day, 2);
    assert(out@ == start + date_text(year as int, month as int, day as int));
    push_char(out, 'T');
    append_decimal(out, (rest / 3600) as u32, 2);
    push_char(out, ':');
    append_decimal(out, (rest / 60 % 60) as u32, 2);
    push_char(out, ':');
    append_decimal(out, (rest % 60) as u32, 2);
    assert(out@ == start + clock_text(secs as int));
}

/// The text of the instant with the count `value`.
pub fn format_stamp(value: i64, p: Precision) -> (r: String)
    requires
        0 <= value <= max_value(p),
    ensures
        r@ == canonical_text(p, value as int),
{
    let mut out = String::new();
    match p {
        Precision::Seconds => {
            append_clock(&mut out, value);
            push_char(&mut out, 'Z');
        },
        Precision::Millis => {
            append_clock(&mut out, value / 1000);
            push_char(&mut out, '.');
            append_decimal(&mut out, (value % 1000) as u32, 3);
            push_char(&mut out, 'Z');
        },
    }
    assert(out@ == canonical_text(p, value as int));
    out
}

} // verus!
