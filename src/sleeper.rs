//! Paces the control loop: each tick starts a fixed period after the last.
use vstd::prelude::*;

verus! {

pub struct Sleeper {
    /// Period between ticks, in milliseconds.
    pub duration: u64,
    /// When the last tick ended, in milliseconds.
    pub timestamp: u64,
}

impl Sleeper {
    /// A sleeper with the given period whose last tick ended at `now`.
    pub fn new(duration_ms: u64, now: u64) -> (r: Sleeper)
        ensures
            r.duration == duration_ms,
            r.timestamp == now,
    {
        Sleeper { duration: duration_ms, timestamp: now }
    }

    /// How long to sleep at `now` so that the next tick starts one period
    /// after the last: the period less the time elapsed, or nothing.
    pub fn remaining(&self, now: u64) -> (r: u64)
        ensures
            r == if now < self.timestamp {
                self.duration as int
            } else if now - self.timestamp < self.duration {
                self.duration - (now - self.timestamp)
            } else {
                0
            },
    {
        if now < self.timestamp {
            self.duration
        } else if now - self.timestamp < self.duration {
            self.duration - (now - self.timestamp)
        } else {
            0
        }
    }

    /// Records that a tick ended at `now`.
    pub fn mark(&mut self, now: u64)
        ensures
            final(self).duration == old(self).duration,
            final(self).timestamp == now,
    {
        self.timestamp = now;
    }
}

} // verus!
