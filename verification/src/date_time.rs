//! Instants with the precision of a millisecond, from
//! 1970-01-01T00:00:00.000Z to 9999-12-31T23:59:59.999Z.

use vstd::prelude::*;
use crate::stamp::canonical_text;
use crate::stamp::format_stamp;
use crate::stamp::parse_spec;
use crate::stamp::parse_stamp;
use crate::stamp::ErrorKind;
use crate::stamp::Precision;
use crate::stamp::MAX_MILLIS;
use core::cmp::Ordering;
use std::time::Duration;
use vstd::std_specs::cmp::PartialOrdSpecImpl;

verus! {

/// The first instant, as a count of milliseconds.
pub const MIN_UNIX_TIMESTAMP_MS: i64 = 0;

/// The last instant, as a count of milliseconds.
pub const MAX_UNIX_TIMESTAMP_MS: i64 = MAX_MILLIS;

/// Why no `DateTime` was made.
#[derive(Clone, Copy, Debug, PartialEq, Eq)]
pub struct ParseDateTimeError {
    /// What went wrong.
    pub kind: ErrorKind,
}

/// What the error of a text that is no instant says.
pub const FORMAT_MESSAGE: &'static str = "invalid date-time format";

/// What the error of an instant out of range says.
pub const RANGE_MESSAGE: &'static str = "date-time out of range";

/// What the error of a duration that is too fine says.
pub const PRECISION_MESSAGE: &'static str = "duration finer than a millisecond";

/// What the error of the kind `kind` says.
pub open spec fn message(kind: ErrorKind) -> Seq<char> {
    match kind {
        ErrorKind::Format => FORMAT_MESSAGE@,
        ErrorKind::Range => RANGE_MESSAGE@,
        ErrorKind::Precision => PRECISION_MESSAGE@,
    }
}

impl ParseDateTimeError {
    /// A sentence that says what went wrong.
    pub fn to_string(&self) -> (r: String)
        ensures
            r@ == message(self.kind),
    {
        match self.kind {
            ErrorKind::Format => FORMAT_MESSAGE.to_owned(),
            ErrorKind::Range => RANGE_MESSAGE.to_owned(),
            ErrorKind::Precision => PRECISION_MESSAGE.to_owned(),
        }
    }
}

/// The whole milliseconds of a duration.
pub uninterp spec fn duration_millis(d: Duration) -> nat;

/// The part of a duration below its whole seconds, in nanoseconds.
pub uninterp spec fn duration_subsec_nanos(d: Duration) -> nat;

/// The whole milliseconds of a duration. This is `Duration::as_millis`.
#[verifier::external_body]
fn whole_millis(d: &Duration) -> (r: u128)
    ensures
        r == duration_millis(*d),
{
    d.as_millis()
}

/// The part of a duration below its whole seconds, in nanoseconds. This is
/// `Duration::subsec_nanos`, of which the documentation says that the
/// result is less than one billion.
#[verifier::external_body]
fn subsec_nanos(d: &Duration) -> (r: u32)
    ensures
        r == duration_subsec_nanos(*d),
        r < 1_000_000_000,
{
    d.subsec_nanos()
}

/// The milliseconds of a duration of `nanos` nanoseconds and `millis` whole
/// milliseconds, provided it has no finer part and the count fits.
pub open spec fn exact_millis(nanos: nat, millis: nat) -> Result<i64, ParseDateTimeError> {
    if nanos % 1_000_000 != 0 {
        Err(ParseDateTimeError { kind: ErrorKind::Precision })
    } else if millis > i64::MAX {
        Err(ParseDateTimeError { kind: ErrorKind::Range })
    } else {
        Ok(millis as i64)
    }
}

/// The instant that lies `millis` milliseconds after `at`, or before it
/// where `forward` is false, as a count; or why there is none.
pub open spec fn shifted(at: int, nanos: nat, millis: nat, forward: bool) -> Result<
    int,
    ErrorKind,
> {
    let to = if forward {
        at + millis
    } else {
        at - millis
    };
    if nanos % 1_000_000 != 0 {
        Err(ErrorKind::Precision)
    } else if 0 <= to <= MAX_MILLIS {
        Ok(to)
    } else {
        Err(ErrorKind::Range)
    }
}

/// The milliseconds of a duration whose part below the second is
/// `subsec_nanos` and whose whole milliseconds are `whole_millis`. A
/// duration with a part finer than a millisecond has none.
pub fn millis_exact(subsec_nanos: u32, whole_millis: u128) -> (r: Result<i64, ParseDateTimeError>)
    ensures
        r == exact_millis(subsec_nanos as nat, whole_millis as nat),
{
    if subsec_nanos % 1_000_000 != 0 {
        return Err(ParseDateTimeError { kind: ErrorKind::Precision });
    }
    if whole_millis > 9_223_372_036_854_775_807u128 {
        return Err(ParseDateTimeError { kind: ErrorKind::Range });
    }
    Ok(whole_millis as i64)
}

/// The milliseconds of a duration, provided it holds no part finer than a
/// millisecond.
pub fn duration_as_millis_exact(d: Duration) -> (r: Result<i64, ParseDateTimeError>)
    ensures
        r == exact_millis(duration_subsec_nanos(d), duration_millis(d)),
{
    millis_exact(subsec_nanos(&d), whole_millis(&d))
}

/// An instant, counted in milliseconds since 1970-01-01T00:00:00.000Z.
#[derive(Clone, Copy, Debug, PartialEq, Eq, Ord, Hash)]
pub struct DateTime {
    millis: i64,
}

impl View for DateTime {
    type V = int;

    /// The milliseconds since 1970-01-01T00:00:00.000Z.
    closed spec fn view(&self) -> int {
        self.millis as int
    }
}

/// What a result says: the count of the instant, or what went wrong.
pub open spec fn outcome(r: Result<DateTime, ParseDateTimeError>) -> Result<int, ErrorKind> {
    match r {
        Ok(d) => Ok(d@),
        Err(e) => Err(e.kind),
    }
}

impl DateTime {
    /// The instant lies in the range that a `DateTime` can hold.
    #[verifier::type_invariant]
    pub closed spec fn wf(self) -> bool {
        0 <= self.millis <= MAX_MILLIS
    }

    /// What `wf` says of the count.
    pub proof fn lemma_wf(self)
        requires
            self.wf(),
        ensures
            0 <= self@ <= MAX_MILLIS,
    {
    }

    /// The instant with the count `millis`.
    pub closed spec fn at(millis: int) -> DateTime {
        DateTime { millis: millis as i64 }
    }

    /// An instant is the instant of its count.
    pub proof fn lemma_at(self)
        ensures
            DateTime::at(self@) == self,
    {
    }

    /// The instant that lies `timestamp_ms` milliseconds after
    /// 1970-01-01T00:00:00.000Z, if it is in range.
    pub fn from_unix_timestamp_as_millis(timestamp_ms: i64) -> (r: Result<
        DateTime,
        ParseDateTimeError,
    >)
        ensures
            outcome(r) == if 0 <= timestamp_ms <= MAX_MILLIS {
                Ok::<int, ErrorKind>(timestamp_ms as int)
            } else {
                Err::<int, ErrorKind>(ErrorKind::Range)
            },
            r matches Ok(d) ==> d.wf(),
    {
        if timestamp_ms < MIN_UNIX_TIMESTAMP_MS || timestamp_ms > MAX_UNIX_TIMESTAMP_MS {
            return Err(ParseDateTimeError { kind: ErrorKind::Range });
        }
        Ok(DateTime { millis: timestamp_ms })
    }

    /// The milliseconds since 1970-01-01T00:00:00.000Z.
    pub fn unix_timestamp_as_millis(&self) -> (r: i64)
        ensures
            r == self@,
            0 <= r <= MAX_MILLIS,
    {
        proof {
            use_type_invariant(self);
        }
        self.millis
    }

    /// The text of the instant, as `YYYY-MM-DDTHH:MM:SS.mmmZ`.
    pub fn to_string(&self) -> (r: String)
        ensures
            r@ == canonical_text(Precision::Millis, self@),
    {
        proof {
            use_type_invariant(self);
        }
        format_stamp(self.millis, Precision::Millis)
    }

    /// Reads an instant from its text, which gives the milliseconds with
    /// exactly three digits and ends with `Z` or with an offset from UTC.
    pub fn from_str(s: &str) -> (r: Result<DateTime, ParseDateTimeError>)
        ensures
            outcome(r) == parse_spec(s@, Precision::Millis),
            r matches Ok(d) ==> d.wf(),
    {
        match parse_stamp(s, Precision::Millis) {
            Ok(v) => Ok(DateTime { millis: v }),
            Err(kind) => Err(ParseDateTimeError { kind }),
        }
    }

    /// The instant that lies `whole_millis` milliseconds after this one,
    /// for a duration whose part below the second is `subsec_nanos`.
    pub fn plus_exact(self, subsec_nanos: u32, whole_millis: u128) -> (r: Result<
        DateTime,
        ParseDateTimeError,
    >)
        ensures
            outcome(r) == shifted(self@, subsec_nanos as nat, whole_millis as nat, true),
            r matches Ok(d) ==> d.wf(),
    {
        proof {
            use_type_invariant(self);
        }
        let step = match millis_exact(subsec_nanos, whole_millis) {
            Ok(x) => x,
            Err(e) => {
                return Err(e);
            },
        };
        match self.millis.checked_add(step) {
            Some(to) => DateTime::from_unix_timestamp_as_millis(to),
            None => Err(ParseDateTimeError { kind: ErrorKind::Range }),
        }
    }

    /// The instant that lies `whole_millis` milliseconds before this one,
    /// for a duration whose part below the second is `subsec_nanos`.
    pub fn minus_exact(self, subsec_nanos: u32, whole_millis: u128) -> (r: Result<
        DateTime,
        ParseDateTimeError,
    >)
        ensures
            outcome(r) == shifted(self@, subsec_nanos as nat, whole_millis as nat, false),
            r matches Ok(d) ==> d.wf(),
    {
        proof {
            use_type_invariant(self);
        }
        let step = match millis_exact(subsec_nanos, whole_millis) {
            Ok(x) => x,
            Err(e) => {
                return Err(e);
            },
        };
        match self.millis.checked_sub(step) {
            Some(to) => DateTime::from_unix_timestamp_as_millis(to),
            None => Err(ParseDateTimeError { kind: ErrorKind::Range }),
        }
    }
}

/// The result that says what `shifted` says.
pub open spec fn result_of(r: Result<int, ErrorKind>) -> Result<DateTime, ParseDateTimeError> {
    match r {
        Ok(v) => Ok(DateTime::at(v)),
        Err(kind) => Err(ParseDateTimeError { kind }),
    }
}

/// The result that says what `r` says, says it: the instant of a count in
/// range has that count.
pub proof fn lemma_result_of(r: Result<int, ErrorKind>)
    requires
        r matches Ok(v) ==> 0 <= v <= MAX_MILLIS,
    ensures
        outcome(result_of(r)) == r,
        result_of(r) matches Ok(d) ==> d.wf(),
{
}

impl core::ops::Add<Duration> for DateTime {
    type Output = Result<DateTime, ParseDateTimeError>;

    /// The instant that lies the duration `rhs` after this one. A duration
    /// with a part finer than a millisecond is refused, and so is an
    /// instant out of range.
    fn add(self, rhs: Duration) -> (r: Result<DateTime, ParseDateTimeError>) {
        let r = self.plus_exact(subsec_nanos(&rhs), whole_millis(&rhs));
        proof {
            if let Ok(d) = r {
                d.lemma_at();
            }
        }
        r
    }
}

impl vstd::std_specs::ops::AddSpecImpl<Duration> for DateTime {
    open spec fn obeys_add_spec() -> bool {
        true
    }

    open spec fn add_req(self, rhs: Duration) -> bool {
        true
    }

    open spec fn add_spec(self, rhs: Duration) -> Result<DateTime, ParseDateTimeError> {
        result_of(shifted(self@, duration_subsec_nanos(rhs), duration_millis(rhs), true))
    }
}

impl core::ops::Sub<Duration> for DateTime {
    type Output = Result<DateTime, ParseDateTimeError>;

    /// The instant that lies the duration `rhs` before this one. A duration
    /// with a part finer than a millisecond is refused, and so is an
    /// instant out of range.
    fn sub(self, rhs: Duration) -> (r: Result<DateTime, ParseDateTimeError>) {
        let r = self.minus_exact(subsec_nanos(&rhs), whole_millis(&rhs));
        proof {
            if let Ok(d) = r {
                d.lemma_at();
            }
        }
        r
    }
}

impl vstd::std_specs::ops::SubSpecImpl<Duration> for DateTime {
    open spec fn obeys_sub_spec() -> bool {
        true
    }

    open spec fn sub_req(self, rhs: Duration) -> bool {
        true
    }

    open spec fn sub_spec(self, rhs: Duration) -> Result<DateTime, ParseDateTimeError> {
        result_of(shifted(self@, duration_subsec_nanos(rhs), duration_millis(rhs), false))
    }
}

impl PartialOrd for DateTime {
    /// Instants are ordered as their counts are: the earlier one is the
    /// lesser.
    fn partial_cmp(&self, other: &DateTime) -> (r: Option<Ordering>) {
        if self.millis < other.millis {
            Some(Ordering::Less)
        } else if self.millis > other.millis {
            Some(Ordering::Greater)
        } else {
            Some(Ordering::Equal)
        }
    }
}

impl PartialOrdSpecImpl for DateTime {
    open spec fn obeys_partial_cmp_spec() -> bool {
        true
    }

    open spec fn partial_cmp_spec(&self, other: &DateTime) -> Option<Ordering> {
        if self@ < other@ {
            Some(Ordering::Less)
        } else if self@ > other@ {
            Some(Ordering::Greater)
        } else {
            Some(Ordering::Equal)
        }
    }
}

impl core::str::FromStr for DateTime {
    type Err = ParseDateTimeError;

    /// Reads an instant from its text, as the function `from_str` of
    /// `DateTime` itself does.
    fn from_str(s: &str) -> (r: Result<DateTime, ParseDateTimeError>)
        ensures
            outcome(r) == parse_spec(s@, Precision::Millis),
    {
        match parse_stamp(s, Precision::Millis) {
            Ok(v) => Ok(DateTime { millis: v }),
            Err(kind) => Err(ParseDateTimeError { kind }),
        }
    }
}

/// Reading the text of an instant gives the instant back.
pub proof fn lemma_text_round_trip(d: DateTime)
    requires
        d.wf(),
    ensures
        parse_spec(canonical_text(Precision::Millis, d@), Precision::Millis) == Ok::<
            int,
            ErrorKind,
        >(d@),
{
    d.lemma_wf();
    crate::stamp::lemma_canonical_parses(Precision::Millis, d@);
}

} // verus!
