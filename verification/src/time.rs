//! Instants as the notebook compares them.

use vstd::prelude::*;

verus! {

/// An instant in UTC: whole seconds since the Unix epoch and the
/// nanoseconds past that second (a leap second may carry more than 10^9).
#[derive(Clone, Copy, Debug, PartialEq, Eq, Structural)]
pub struct Timestamp {
    pub secs: i64,
    pub nanos: u32,
}

impl Timestamp {
    /// Whether `self` is strictly earlier than `other`.
    pub open spec fn before(self, other: Timestamp) -> bool {
        self.secs < other.secs || (self.secs == other.secs && self.nanos < other.nanos)
    }

    /// Whether `self` is no later than `other`.
    pub open spec fn not_after(self, other: Timestamp) -> bool {
        !other.before(self)
    }

    /// The sort key of the instant: chronological order is key order.
    pub open spec fn key(self) -> (i64, i64) {
        (self.secs, self.nanos as i64)
    }

    /// The sort key of the instant.
    pub fn sort_key(&self) -> (k: (i64, i64))
        ensures
            k == self.key(),
    {
        (self.secs, self.nanos as i64)
    }

    /// Whether `self` is no later than `other`.
    pub fn is_not_after(&self, other: &Timestamp) -> (r: bool)
        ensures
            r == self.not_after(*other),
    {
        !(other.secs < self.secs || (other.secs == self.secs && other.nanos < self.nanos))
    }
}

} // verus!
