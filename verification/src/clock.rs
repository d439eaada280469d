//! A virtual time source.
//!
//! The service never reads the wall clock itself: it holds a [`Clock`] that
//! the runtime seeds at startup and advances as real or simulated time
//! passes. Timestamps are milliseconds.

use vstd::prelude::*;

verus! {

/// A stored timestamp has expired when it plus the time-to-live lies before
/// the present.
pub open spec fn expired(ts: u64, now: u64, ttl: u64) -> bool {
    ts + ttl < now
}

/// Monotone virtual time in milliseconds.
#[derive(PartialEq, Eq, Structural, Clone, Copy, Debug)]
pub struct Clock {
    millis: u64,
}

impl Clock {
    /// The current reading, for contracts.
    pub closed spec fn spec_now(self) -> u64 {
        self.millis
    }

    /// A clock seeded at `millis`.
    pub fn new(millis: u64) -> (c: Clock)
        ensures
            c.spec_now() == millis,
    {
        Clock { millis }
    }

    /// The current reading.
    pub fn now(&self) -> (t: u64)
        ensures
            t == self.spec_now(),
    {
        self.millis
    }

    /// Advance the clock by `delta` milliseconds.
    pub fn advance(&mut self, delta: u64)
        requires
            old(self).spec_now() + delta <= u64::MAX,
        ensures
            final(self).spec_now() == old(self).spec_now() + delta,
    {
        self.millis = self.millis + delta;
    }

    /// Move the clock forward to `millis`; a reading from the past is
    /// ignored, so the clock never runs backwards.
    pub fn set(&mut self, millis: u64)
        ensures
            final(self).spec_now() == if millis > old(self).spec_now() {
                millis
            } else {
                old(self).spec_now()
            },
    {
        if millis > self.millis {
            self.millis = millis;
        }
    }
}

} // verus!
