//! Instants and optional inclusive time windows.

use vstd::prelude::*;

verus! {

/// A UTC instant: whole seconds since the Unix epoch and the nanoseconds
/// within that second. Instants are ordered by seconds first, then by
/// nanoseconds.
#[derive(Clone, Copy, Debug, PartialEq, Eq, Structural)]
pub struct Timestamp {
    pub secs: i64,
    pub nanos: u32,
}

impl Timestamp {
    pub fn new(secs: i64, nanos: u32) -> (t: Timestamp)
        ensures
            t.secs == secs,
            t.nanos == nanos,
    {
        Timestamp { secs, nanos }
    }

    /// `self` is not later than `other`.
    pub open spec fn spec_le(self, other: Timestamp) -> bool {
        self.secs < other.secs || (self.secs == other.secs && self.nanos <= other.nanos)
    }

    #[verifier::when_used_as_spec(spec_le)]
    pub fn le(self, other: Timestamp) -> (r: bool)
        ensures
            r == self.spec_le(other),
    {
        self.secs < other.secs || (self.secs == other.secs && self.nanos <= other.nanos)
    }
}

/// An optional inclusive lower bound and an optional inclusive upper bound.
/// A missing bound leaves that side open.
#[derive(Clone, Copy, Debug, PartialEq, Eq, Structural)]
pub struct TimeRange {
    pub start_at: Option<Timestamp>,
    pub end_at: Option<Timestamp>,
}

impl TimeRange {
    pub fn new(start_at: Option<Timestamp>, end_at: Option<Timestamp>) -> (r: TimeRange)
        ensures
            r.start_at == start_at,
            r.end_at == end_at,
    {
        TimeRange { start_at, end_at }
    }

    /// The range without bounds, which holds every instant.
    pub fn unbounded() -> (r: TimeRange)
        ensures
            r.start_at is None,
            r.end_at is None,
    {
        TimeRange { start_at: None, end_at: None }
    }

    /// `time` lies within the range, bounds included.
    pub open spec fn spec_contains(self, time: Timestamp) -> bool {
        &&& self.start_at matches Some(start) ==> start.le(time)
        &&& self.end_at matches Some(end) ==> time.le(end)
    }

    #[verifier::when_used_as_spec(spec_contains)]
    pub fn contains(self, time: Timestamp) -> (r: bool)
        ensures
            r == self.spec_contains(time),
    {
        let after_start = match self.start_at {
            Some(start) => start.le(time),
            None => true,
        };
        let before_end = match self.end_at {
            Some(end) => time.le(end),
            None => true,
        };
        after_start && before_end
    }
}

/// The order on instants is total: it is reflexive, antisymmetric and
/// transitive, and any two instants compare one way or the other.
pub proof fn timestamp_order_is_total(a: Timestamp, b: Timestamp, c: Timestamp)
    ensures
        a.le(a),
        a.le(b) && b.le(a) ==> a == b,
        a.le(b) && b.le(c) ==> a.le(c),
        a.le(b) || b.le(a),
{
}

/// A range whose lower bound lies after its upper bound holds no instant.
pub proof fn inverted_range_is_empty(range: TimeRange, time: Timestamp)
    requires
        range.start_at matches Some(start) && range.end_at matches Some(end) && !start.le(end),
    ensures
        !range.contains(time),
{
}

} // verus!
