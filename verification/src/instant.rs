//! Instants: points on the UTC time line, counted in nanoseconds from the
//! Unix epoch.

use vstd::prelude::*;

verus! {

/// A point in time: a number of nanoseconds before (negative) or after the
/// start of 1970 in UTC.
#[derive(Debug, Clone, Copy, PartialEq, Eq, Structural, PartialOrd, Ord, Hash)]
pub struct Instant {
    nanos: i128,
}

impl View for Instant {
    type V = int;

    closed spec fn view(&self) -> int {
        self.nanos as int
    }
}

impl Instant {
    /// The instant that lies `nanos` nanoseconds after the Unix epoch.
    pub fn from_unix_nanos(nanos: i128) -> (r: Self)
        ensures
            r@ == nanos,
    {
        Instant { nanos }
    }

    /// The number of nanoseconds from the Unix epoch to this instant.
    pub fn unix_nanos(&self) -> (r: i128)
        ensures
            r == self@,
    {
        self.nanos
    }

    /// Whether this instant lies before `other`.
    pub fn is_before(&self, other: &Instant) -> (r: bool)
        ensures
            r == (self@ < other@),
    {
        self.nanos < other.nanos
    }

    /// The instant `nanos` nanoseconds after this one, or `None` where it
    /// cannot be represented.
    pub fn checked_add_nanos(&self, nanos: i128) -> (r: Option<Instant>)
        ensures
            r is Some <==> i128::MIN <= self@ + nanos <= i128::MAX,
            r matches Some(later) ==> later@ == self@ + nanos,
    {
        match self.nanos.checked_add(nanos) {
            Some(sum) => Some(Instant { nanos: sum }),
            None => None,
        }
    }

    /// The number of nanoseconds from `earlier` to this instant, or `None`
    /// where it cannot be represented.
    pub fn checked_nanos_since(&self, earlier: &Instant) -> (r: Option<i128>)
        ensures
            r is Some <==> i128::MIN <= self@ - earlier@ <= i128::MAX,
            r matches Some(span) ==> span == self@ - earlier@,
    {
        self.nanos.checked_sub(earlier.nanos)
    }

    /// Instants are equal exactly when their distances from the epoch are.
    pub proof fn lemma_view_injective(a: Instant, b: Instant)
        ensures
            a@ == b@ <==> a == b,
    {
    }
}

} // verus!
