//! Instants with the precision of a second, from 1970-01-01T00:00:00Z to
//! 9999-12-31T23:59:59Z.

use vstd::prelude::*;
use crate::data::timestamp::Timestamp;
use crate::stamp::canonical_text;
use crate::stamp::format_stamp;
use crate::stamp::parse_spec;
use crate::stamp::parse_stamp;
use crate::stamp::ErrorKind;
use crate::stamp::Precision;
use crate::stamp::MAX_SECONDS;
use core::cmp::Ordering;
use vstd::std_specs::cmp::PartialOrdSpecImpl;

verus! {

/// Why no `DateTime` was made.
#[derive(Clone, Copy, Debug, PartialEq, Eq)]
pub struct ParseDateTimeError {
    /// What went wrong.
    pub kind: ErrorKind,
}

/// What the error says.
pub const MESSAGE: &'static str = "parse date time error";

impl ParseDateTimeError {
    /// A sentence that says what went wrong.
    pub fn to_string(&self) -> (r: String)
        ensures
            r@ == MESSAGE@,
    {
        MESSAGE.to_owned()
    }
}

/// An instant, counted in seconds since 1970-01-01T00:00:00Z.
#[derive(Clone, Copy, Debug, PartialEq, Eq, Ord, Hash)]
pub struct DateTime {
    seconds: i64,
}

impl View for DateTime {
    type V = int;

    /// The seconds since 1970-01-01T00:00:00Z.
    closed spec fn view(&self) -> int {
        self.seconds as int
    }
}

/// What a result says: the count of the instant, or what went wrong.
pub open spec fn outcome(r: Result<DateTime, ParseDateTimeError>) -> Result<int, ErrorKind> {
    match r {
        Ok(d) => Ok(d@),
        Err(e) => Err(e.kind),
    }
}

impl DateTime {
    /// The instant lies in the range that a `DateTime` can hold.
    #[verifier::type_invariant]
    pub closed spec fn wf(self) -> bool {
        0 <= self.seconds <= MAX_SECONDS
    }

    /// What `wf` says of the count.
    pub proof fn lemma_wf(self)
        requires
            self.wf(),
        ensures
            0 <= self@ <= MAX_SECONDS,
    {
    }

    /// The instant of a timestamp. Whatever the offset of the local clock
    /// from UTC is, the instant is the same, and its text is in UTC.
    pub fn local_from_timestamp(timestamp: Timestamp) -> (r: DateTime)
        ensures
            r.wf(),
            r@ == timestamp@,
    {
        DateTime { seconds: timestamp.seconds() }
    }

    /// The instant that lies `seconds` seconds after 1970-01-01T00:00:00Z,
    /// if it is in range.
    pub fn from_unix_timestamp(seconds: i64) -> (r: Result<DateTime, ParseDateTimeError>)
        ensures
            outcome(r) == if 0 <= seconds <= MAX_SECONDS {
                Ok::<int, ErrorKind>(seconds as int)
            } else {
                Err::<int, ErrorKind>(ErrorKind::Range)
            },
            r matches Ok(d) ==> d.wf(),
    {
        if seconds < 0 || seconds > MAX_SECONDS {
            return Err(ParseDateTimeError { kind: ErrorKind::Range });
        }
        Ok(DateTime { seconds })
    }

    /// The timestamp of the instant.
    pub fn timestamp(&self) -> (r: Timestamp)
        ensures
            r.wf(),
            r@ == self@,
    {
        proof {
            use_type_invariant(self);
        }
        Timestamp::of(self.seconds)
    }

    /// The part of the instant below its second, in nanoseconds: none.
    pub fn nanosecond(&self) -> (r: u32)
        ensures
            r == 0,
    {
        0
    }

    /// The text of the instant, as `YYYY-MM-DDTHH:MM:SSZ`.
    pub fn to_string(&self) -> (r: String)
        ensures
            r@ == canonical_text(Precision::Seconds, self@),
    {
        proof {
            use_type_invariant(self);
        }
        format_stamp(self.seconds, Precision::Seconds)
    }

    /// Reads an instant from its text, which gives no fraction of a second
    /// and ends with `Z` or with an offset from UTC.
    pub fn from_str(s: &str) -> (r: Result<DateTime, ParseDateTimeError>)
        ensures
            outcome(r) == parse_spec(s@, Precision::Seconds),
            r matches Ok(d) ==> d.wf(),
    {
        match parse_stamp(s, Precision::Seconds) {
            Ok(v) => Ok(DateTime { seconds: v }),
            Err(kind) => Err(ParseDateTimeError { kind }),
        }
    }
}

impl PartialOrd for DateTime {
    /// Instants are ordered as their counts are: the earlier one is the
    /// lesser.
    fn partial_cmp(&self, other: &DateTime) -> (r: Option<Ordering>) {
        if self.seconds < other.seconds {
            Some(Ordering::Less)
        } else if self.seconds > other.seconds {
            Some(Ordering::Greater)
        } else {
            Some(Ordering::Equal)
        }
    }
}

impl PartialOrdSpecImpl for DateTime {
    open spec fn obeys_partial_cmp_spec() -> bool {
        true
    }

    open spec fn partial_cmp_spec(&self, other: &DateTime) -> Option<Ordering> {
        if self@ < other@ {
            Some(Ordering::Less)
        } else if self@ > other@ {
            Some(Ordering::Greater)
        } else {
            Some(Ordering::Equal)
        }
    }
}

impl core::str::FromStr for DateTime {
    type Err = ParseDateTimeError;

    /// Reads an instant from its text, as the function `from_str` of
    /// `DateTime` itself does.
    fn from_str(s: &str) -> (r: Result<DateTime, ParseDateTimeError>)
        ensures
            outcome(r) == parse_spec(s@, Precision::Seconds),
    {
        match parse_stamp(s, Precision::Seconds) {
            Ok(v) => Ok(DateTime { seconds: v }),
            Err(kind) => Err(ParseDateTimeError { kind }),
        }
    }
}

impl From<DateTime> for Timestamp {
    /// The timestamp of the instant.
    fn from(dt: DateTime) -> (r: Timestamp) {
        let r = dt.timestamp();
        proof {
            r.lemma_at();
        }
        r
    }
}

impl vstd::std_specs::convert::FromSpecImpl<DateTime> for Timestamp {
    open spec fn obeys_from_spec() -> bool {
        true
    }

    open spec fn from_spec(dt: DateTime) -> Timestamp {
        Timestamp::at(dt@)
    }
}

/// Reading the text of an instant gives the instant back.
pub proof fn lemma_text_round_trip(d: DateTime)
    requires
        d.wf(),
    ensures
        parse_spec(canonical_text(Precision::Seconds, d@), Precision::Seconds) == Ok::<
            int,
            ErrorKind,
        >(d@),
{
    d.lemma_wf();
    crate::stamp::lemma_canonical_parses(Precision::Seconds, d@);
}

} // verus!
