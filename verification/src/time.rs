//! Monotonic time as plain integers.
//!
//! An [`Instant`] counts microseconds from an origin that the host chooses
//! once; a [`Duration`] is a span of microseconds. Additions saturate at the
//! upper end of the range, subtractions at zero.

use vstd::prelude::*;

verus! {

/// A span of time in microseconds.
#[derive(Clone, Copy, Debug, PartialEq, Eq, Structural, Hash)]
pub struct Duration {
    pub micros: u64,
}

/// A point on the host's monotonic clock, in microseconds since its origin.
#[derive(Clone, Copy, Debug, PartialEq, Eq, Structural, Hash)]
pub struct Instant {
    pub micros: u64,
}

/// Saturating sum of two microsecond counts.
pub open spec fn sat_add(a: u64, b: u64) -> u64 {
    if a + b > u64::MAX {
        u64::MAX
    } else {
        (a + b) as u64
    }
}

/// Difference of two microsecond counts, zero when `b` is the larger.
pub open spec fn sat_sub(a: u64, b: u64) -> u64 {
    if a >= b {
        (a - b) as u64
    } else {
        0
    }
}

impl Duration {
    /// The empty span.
    pub fn zero() -> (d: Duration)
        ensures
            d.micros == 0,
    {
        Duration { micros: 0 }
    }

    /// A span of `micros` microseconds.
    pub fn from_micros(micros: u64) -> (d: Duration)
        ensures
            d.micros == micros,
    {
        Duration { micros }
    }

    /// A span of `millis` milliseconds, saturating.
    pub fn from_millis(millis: u64) -> (d: Duration)
        ensures
            d.micros == (if millis * 1000 > u64::MAX { u64::MAX } else { (millis * 1000) as u64 }),
    {
        if millis > u64::MAX / 1000 {
            Duration { micros: u64::MAX }
        } else {
            Duration { micros: millis * 1000 }
        }
    }

    /// The span in microseconds.
    pub fn as_micros(&self) -> (m: u64)
        ensures
            m == self.micros,
    {
        self.micros
    }
}

impl Instant {
    /// The instant `micros` microseconds after the origin.
    pub fn from_micros(micros: u64) -> (t: Instant)
        ensures
            t.micros == micros,
    {
        Instant { micros }
    }

    /// Microseconds since the origin.
    pub fn as_micros(&self) -> (m: u64)
        ensures
            m == self.micros,
    {
        self.micros
    }

    /// The instant `d` later than `self`, saturating.
    pub open spec fn plus(self, d: Duration) -> Instant {
        Instant { micros: sat_add(self.micros, d.micros) }
    }

    /// The span from `earlier` to `self`, zero if `earlier` is not earlier.
    pub open spec fn since(self, earlier: Instant) -> Duration {
        Duration { micros: sat_sub(self.micros, earlier.micros) }
    }

    /// `self + d`, saturating at the end of the clock's range.
    pub fn saturating_add(&self, d: Duration) -> (t: Instant)
        ensures
            t == self.plus(d),
    {
        if self.micros > u64::MAX - d.micros {
            Instant { micros: u64::MAX }
        } else {
            Instant { micros: self.micros + d.micros }
        }
    }

    /// Time elapsed from `earlier` to `self`; zero if `earlier` is later.
    pub fn duration_since(&self, earlier: Instant) -> (d: Duration)
        ensures
            d == self.since(earlier),
    {
        if self.micros >= earlier.micros {
            Duration { micros: self.micros - earlier.micros }
        } else {
            Duration { micros: 0 }
        }
    }
}

/// The earlier of two optional instants; an absent one never wins.
pub open spec fn spec_smallest(t1: Option<Instant>, t2: Option<Instant>) -> Option<Instant> {
    match (t1, t2) {
        (None, None) => None,
        (None, Some(v2)) => Some(v2),
        (Some(v1), None) => Some(v1),
        (Some(v1), Some(v2)) => if v1.micros < v2.micros {
            Some(v1)
        } else {
            Some(v2)
        },
    }
}

/// The earlier of two optional instants; an absent one never wins.
pub fn smallest(t1: Option<Instant>, t2: Option<Instant>) -> (r: Option<Instant>)
    ensures
        r == spec_smallest(t1, t2),
{
    match (t1, t2) {
        (None, None) => None,
        (None, Some(v2)) => Some(v2),
        (Some(v1), None) => Some(v1),
        (Some(v1), Some(v2)) => {
            if v1.micros < v2.micros {
                Some(v1)
            } else {
                Some(v2)
            }
        },
    }
}

} // verus!
