//! Spans of time.
use vstd::prelude::*;

verus! {

/// Nanoseconds in one second.
pub const NANOS_PER_SEC: u128 = 1_000_000_000;

/// Nanoseconds in one millisecond.
pub const NANOS_PER_MILLI: u128 = 1_000_000;

/// A span of time: whole seconds and the nanoseconds on top of them. A point in
/// time is written as the span since the poller was started.
///
/// Its view is the whole span in nanoseconds.
#[derive(Clone, Copy, Debug, PartialEq, Eq, Structural)]
pub struct Duration {
    pub secs: u64,
    pub nanos: u32,
}

impl View for Duration {
    type V = nat;

    open spec fn view(&self) -> nat {
        (self.secs * 1_000_000_000 + self.nanos) as nat
    }
}

impl Duration {
    /// The span of `millis` milliseconds.
    pub fn from_millis(millis: u64) -> (d: Duration)
        ensures
            d@ == millis * 1_000_000,
            d.nanos < 1_000_000_000,
    {
        Duration { secs: millis / 1000, nanos: ((millis % 1000) * 1_000_000) as u32 }
    }

    /// The span of `nanos` nanoseconds.
    pub fn from_nanos(nanos: u128) -> (d: Duration)
        requires
            nanos / NANOS_PER_SEC <= u64::MAX,
        ensures
            d@ == nanos,
            d.nanos < 1_000_000_000,
    {
        Duration { secs: (nanos / NANOS_PER_SEC) as u64, nanos: (nanos % NANOS_PER_SEC) as u32 }
    }

    /// The span in nanoseconds.
    pub fn as_nanos(&self) -> (n: u128)
        ensures
            n == self@,
            n < 0x1_0000_0000_0000_0000 * 1_000_000_000 + 0x1_0000_0000,
    {
        self.secs as u128 * NANOS_PER_SEC + self.nanos as u128
    }

    /// The span in whole milliseconds, rounded down.
    pub fn as_millis(&self) -> (ms: u128)
        ensures
            ms == self@ / 1_000_000,
    {
        self.as_nanos() / NANOS_PER_MILLI
    }
}

} // verus!
