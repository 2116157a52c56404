//! Counts of whole seconds since 1970-01-01T00:00:00Z.

use vstd::prelude::*;
use crate::stamp::MAX_SECONDS;

verus! {

/// A count of seconds since 1970-01-01T00:00:00Z, up to
/// 9999-12-31T23:59:59Z.
#[derive(Clone, Copy, Debug, PartialEq, Eq, PartialOrd, Ord, Hash)]
pub struct Timestamp {
    seconds: i64,
}

impl View for Timestamp {
    type V = int;

    /// The seconds since 1970-01-01T00:00:00Z.
    closed spec fn view(&self) -> int {
        self.seconds as int
    }
}

impl Timestamp {
    /// The count lies in the range that a `Timestamp` can hold.
    #[verifier::type_invariant]
    pub closed spec fn wf(self) -> bool {
        0 <= self.seconds <= MAX_SECONDS
    }

    /// What `wf` says of the count.
    pub proof fn lemma_wf(self)
        requires
            self.wf(),
        ensures
            0 <= self@ <= MAX_SECONDS,
    {
    }

    /// The timestamp with the count `seconds`.
    pub closed spec fn at(seconds: int) -> Timestamp {
        Timestamp { seconds: seconds as i64 }
    }

    /// A timestamp is the timestamp of its count.
    pub proof fn lemma_at(self)
        ensures
            Timestamp::at(self@) == self,
    {
    }

    /// The timestamp of `seconds` seconds, if that is in range.
    pub fn try_from(seconds: i64) -> (r: Option<Timestamp>)
        ensures
            r is Some <==> 0 <= seconds <= MAX_SECONDS,
            r matches Some(t) ==> t.wf() && t@ == seconds,
    {
        if seconds < 0 || seconds > MAX_SECONDS {
            None
        } else {
            Some(Timestamp { seconds })
        }
    }

    /// The timestamp of `seconds` seconds, which are in range.
    pub(crate) fn of(seconds: i64) -> (r: Timestamp)
        requires
            0 <= seconds <= MAX_SECONDS,
        ensures
            r.wf(),
            r@ == seconds,
    {
        Timestamp { seconds }
    }

    /// The seconds since 1970-01-01T00:00:00Z.
    pub fn seconds(&self) -> (r: i64)
        ensures
            r == self@,
            0 <= r <= MAX_SECONDS,
    {
        proof {
            use_type_invariant(self);
        }
        self.seconds
    }
}

} // verus!
