//! Wall-clock instants and durations, measured in whole milliseconds.
//!
//! The cache never relies on the clock being monotonic: every operation that
//! reads the clock states only what holds for an arbitrary reading.

use vstd::prelude::*;

verus! {

/// An absolute point in time: milliseconds since the Unix epoch.
#[derive(Clone, Copy, PartialEq, Eq, Structural, Debug)]
pub struct Timestamp {
    pub millis: u128,
}

/// A length of time in milliseconds.
#[derive(Clone, Copy, PartialEq, Eq, Structural, Debug)]
pub struct TimeSpan {
    pub millis: u128,
}

/// `a + d`, saturating at the largest representable instant.
pub open spec fn spec_saturating_add(a: u128, d: u128) -> u128 {
    if a + d <= u128::MAX {
        (a + d) as u128
    } else {
        u128::MAX
    }
}

/// Relies on `std::time::SystemTime::now`: reads the wall clock. The reading
/// is converted to whole milliseconds since the Unix epoch; a reading before
/// the epoch is treated as the epoch itself. Nothing is promised of the
/// result: the clock may move at any rate, or backwards.
#[verifier::external_body]
fn now_unix_millis() -> u128 {
    std::time::SystemTime::now()
        .duration_since(std::time::SystemTime::UNIX_EPOCH)
        .unwrap_or(std::time::Duration::from_millis(0))
        .as_millis()
}

impl Timestamp {
    /// The current wall-clock time. No contract: the clock's reading is
    /// outside this library's control.
    pub fn now() -> Timestamp {
        Timestamp { millis: now_unix_millis() }
    }

    pub fn from_millis(millis: u128) -> (r: Timestamp)
        ensures
            r.millis == millis,
    {
        Timestamp { millis }
    }

    /// This instant moved forward by `span`, saturating at the largest
    /// representable instant.
    pub fn add_span(self, span: TimeSpan) -> (r: Timestamp)
        ensures
            r.millis == spec_saturating_add(self.millis, span.millis),
    {
        if span.millis <= u128::MAX - self.millis {
            Timestamp { millis: self.millis + span.millis }
        } else {
            Timestamp { millis: u128::MAX }
        }
    }

    /// Milliseconds from `earlier` to `self`; zero if `self` is before
    /// `earlier`, so a clock that moved backwards never causes a panic.
    pub fn millis_since(self, earlier: Timestamp) -> (r: u128)
        ensures
            r == self.spec_millis_since(earlier),
    {
        if self.millis >= earlier.millis {
            self.millis - earlier.millis
        } else {
            0
        }
    }

    pub open spec fn spec_millis_since(self, earlier: Timestamp) -> u128 {
        if self.millis >= earlier.millis {
            (self.millis - earlier.millis) as u128
        } else {
            0
        }
    }
}

impl TimeSpan {
    pub fn from_millis(millis: u128) -> (r: TimeSpan)
        ensures
            r.millis == millis,
    {
        TimeSpan { millis }
    }

    pub fn from_secs(secs: u64) -> (r: TimeSpan)
        ensures
            r.millis == secs * 1000,
    {
        TimeSpan { millis: (secs as u128) * 1000 }
    }
}

impl Default for TimeSpan {
    /// The zero-length span.
    fn default() -> (r: TimeSpan)
        ensures
            r.millis == 0,
    {
        TimeSpan { millis: 0 }
    }
}

} // verus!
