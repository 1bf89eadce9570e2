//! Modification times, ordered as file times are.

use filetime::FileTime;
use vstd::prelude::*;

verus! {

/// A file time by its two parts: the seconds of a `filetime::FileTime`, and the nanoseconds
/// that count forwards from them.
///
/// Two timestamps are ordered as the two file times are: by their seconds first and by their
/// nanoseconds second.
#[derive(Clone, Copy, Debug, PartialEq, Eq, Structural)]
pub struct Timestamp {
    pub seconds: i64,
    pub nanos: u32,
}

impl Timestamp {
    /// Whether `self` is strictly later than `other`.
    pub open spec fn later_than(self, other: Timestamp) -> bool {
        self.seconds > other.seconds || (self.seconds == other.seconds && self.nanos > other.nanos)
    }

    /// Whether `self` is `other` or later.
    pub open spec fn not_before(self, other: Timestamp) -> bool {
        !other.later_than(self)
    }

    /// The file time zero, after which every load comes.
    pub fn zero() -> (t: Timestamp)
        ensures
            t == (Timestamp { seconds: 0, nanos: 0 }),
    {
        file_time_zero()
    }

    /// The time with these parts.
    pub fn new(seconds: i64, nanos: u32) -> (t: Timestamp)
        ensures
            t == (Timestamp { seconds, nanos }),
    {
        Timestamp { seconds, nanos }
    }

    /// Strict comparison: seconds decide, nanoseconds break a tie.
    pub fn is_after(&self, other: &Timestamp) -> (later: bool)
        ensures
            later == self.later_than(*other),
    {
        if self.seconds != other.seconds {
            self.seconds > other.seconds
        } else {
            self.nanos > other.nanos
        }
    }
}

/// The parts of `filetime::FileTime::zero()`, as its methods `seconds` and `nanoseconds` give
/// them. Taken on trust: that file time has zero seconds and zero nanoseconds.
#[verifier::external_body]
fn file_time_zero() -> (t: Timestamp)
    ensures
        t == (Timestamp { seconds: 0, nanos: 0 }),
{
    let zero = FileTime::zero();
    Timestamp { seconds: zero.seconds(), nanos: zero.nanoseconds() }
}

/// Timestamps are totally ordered: no time is later than itself, of two different times
/// exactly one is later than the other, and "later than" and "not before" each carry over a
/// chain of two steps.
pub proof fn law_timestamps_are_totally_ordered(a: Timestamp, b: Timestamp, c: Timestamp)
    ensures
        !a.later_than(a),
        !(a.later_than(b) && b.later_than(a)),
        a == b || a.later_than(b) || b.later_than(a),
        a.later_than(b) && b.later_than(c) ==> a.later_than(c),
        a.not_before(b) && b.not_before(c) ==> a.not_before(c),
{
}

} // verus!
