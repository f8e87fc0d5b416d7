//! Points in time of the kernel's monotonic clock.

use vstd::prelude::*;

verus! {

/// A point in time, counted in ticks of the monotonic clock.
#[derive(Clone, Copy, Debug, PartialEq, Eq, PartialOrd, Ord, Hash, Structural)]
pub struct Instant {
    ticks: u64,
}

impl Instant {
    /// The number of ticks that this instant lies after the clock's origin.
    pub closed spec fn view(&self) -> nat {
        self.ticks as nat
    }

    /// Whether a clock that shows `now` has reached this instant: an instant
    /// is reached at the very tick it names.
    pub open spec fn is_reached_at(&self, now: Instant) -> bool {
        self@ <= now@
    }

    pub fn from_ticks(ticks: u64) -> (instant: Instant)
        ensures
            instant@ == ticks,
    {
        Instant { ticks }
    }

    pub fn ticks(&self) -> (ticks: u64)
        ensures
            ticks == self@,
    {
        self.ticks
    }

    /// Decides whether a deadline at this instant has expired when the clock
    /// shows `now`.
    pub fn reached_at(&self, now: Instant) -> (reached: bool)
        ensures
            reached == self.is_reached_at(now),
    {
        self.ticks <= now.ticks
    }
}

} // verus!
