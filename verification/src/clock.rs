//! Points on a monotonic clock as plain values.

use vstd::prelude::*;

verus! {

/// A reading of a monotonic clock, in nanoseconds from an origin that all readings share.
#[derive(Clone, Copy, Debug, PartialEq, Eq, PartialOrd, Ord, Structural)]
pub struct Moment {
    pub nanos: i64,
}

/// The first instant at which something is due. It can lie beyond every reading.
#[derive(Clone, Copy, Debug, PartialEq, Eq, PartialOrd, Ord, Structural)]
pub struct Deadline {
    nanos: i128,
}

impl Moment {
    /// The earlier of two readings.
    pub fn earlier(self, other: Moment) -> (first: Moment)
        ensures
            first == self.spec_earlier(other),
    {
        if other.nanos < self.nanos {
            other
        } else {
            self
        }
    }

    /// The earlier of two readings.
    pub open spec fn spec_earlier(self, other: Moment) -> Moment {
        if other.nanos < self.nanos {
            other
        } else {
            self
        }
    }
}

impl Deadline {
    /// Nanoseconds from the clock's origin to the deadline.
    pub closed spec fn at(self) -> int {
        self.nanos as int
    }

    /// The instant `nanos` nanoseconds after `start`.
    pub fn after(start: Moment, nanos: u64) -> (deadline: Deadline)
        ensures
            deadline.at() == start.nanos + nanos,
    {
        Deadline { nanos: start.nanos as i128 + nanos as i128 }
    }

    /// Whether the deadline has come.
    pub fn reached(self, now: Moment) -> (reached: bool)
        ensures
            reached == (now.nanos >= self.at()),
    {
        now.nanos as i128 >= self.nanos
    }
}

/// The earlier of two readings is one of them and not after either.
pub proof fn law_the_earlier_is_the_minimum(left: Moment, right: Moment)
    ensures
        left.spec_earlier(right) == left || left.spec_earlier(right) == right,
        left.spec_earlier(right).nanos <= left.nanos,
        left.spec_earlier(right).nanos <= right.nanos,
{
}

/// A deadline has come exactly from its distance after the start on.
pub proof fn law_deadlines_come_after_their_distance(
    start: Moment,
    nanos: u64,
    deadline: Deadline,
    now: Moment,
    reached: bool,
)
    requires
        call_ensures(Deadline::after, (start, nanos), deadline),
        call_ensures(Deadline::reached, (deadline, now), reached),
    ensures
        reached <==> now.nanos - start.nanos >= nanos,
{
}

} // verus!
