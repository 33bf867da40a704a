//! Rate limiting for self-paced sources.

use vstd::prelude::*;

verus! {

/// Paces a producer to a target frame rate. The limiter computes how long
/// a worker still has to wait; the caller performs the actual sleep and
/// measures elapsed time.
pub struct FpsLimiter {
    frame_interval_ns: u64,
}

impl FpsLimiter {
    /// Nanoseconds between frames: the whole-millisecond share of one
    /// second per frame, as a nanosecond count.
    pub closed spec fn spec_interval_ns(self) -> u64 {
        self.frame_interval_ns
    }

    pub fn new(fps: usize) -> (l: FpsLimiter)
        requires
            fps >= 1,
        ensures
            l.spec_interval_ns() == 1000u64 / (fps as u64) * 1000000,
    {
        let per_frame_ms: u64 = 1000 / (fps as u64);
        FpsLimiter { frame_interval_ns: per_frame_ms * 1000000 }
    }

    pub fn interval_ns(&self) -> (n: u64)
        ensures
            n == self.spec_interval_ns(),
    {
        self.frame_interval_ns
    }

    /// How much longer to wait, given how much of the frame interval has
    /// already elapsed. Zero when the interval has passed.
    pub fn remaining_wait_ns(&self, elapsed_ns: u64) -> (n: u64)
        ensures
            elapsed_ns < self.spec_interval_ns() ==> n == self.spec_interval_ns() - elapsed_ns,
            elapsed_ns >= self.spec_interval_ns() ==> n == 0,
    {
        if elapsed_ns < self.frame_interval_ns {
            self.frame_interval_ns - elapsed_ns
        } else {
            0
        }
    }
}

} // verus!
