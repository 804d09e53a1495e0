//! Spans of time, counted in whole milliseconds.

use vstd::prelude::*;

verus! {

/// A span of time in milliseconds.
#[derive(Debug, Clone, Copy, PartialEq, Eq, PartialOrd, Ord, Hash, Structural)]
pub struct Duration {
    millis: u128,
}

impl View for Duration {
    type V = u128;

    closed spec fn view(&self) -> u128 {
        self.millis
    }
}

impl Duration {
    /// A span of `secs` seconds.
    pub fn from_secs(secs: u64) -> (d: Duration)
        ensures
            d@ == secs * 1000,
    {
        Duration { millis: secs as u128 * 1000 }
    }

    /// A span of `millis` milliseconds.
    pub fn from_millis(millis: u64) -> (d: Duration)
        ensures
            d@ == millis,
    {
        Duration { millis: millis as u128 }
    }

    /// The whole number of milliseconds in the span.
    pub fn as_millis(&self) -> (ms: u128)
        ensures
            ms == self@,
    {
        self.millis
    }

    /// The span in milliseconds, truncated to 64 bits.
    pub open spec fn millis_u64(self) -> u64 {
        self@ as u64
    }
}

} // verus!
