//! Timer bookkeeping: the monotonically increasing tick counter the
//! timer-interrupt path advances, and the next-deadline arithmetic for
//! re-arming the platform timer.
use vstd::prelude::*;

use crate::config::{TICKS_PER_SEC, TICK_INTERVAL};

verus! {

/// The monotonically increasing count of timer interrupts taken.
pub struct TickCounter {
    /// Timer interrupts taken so far.
    pub ticks: u64,
}

impl TickCounter {
    /// A counter at zero, as the timer path starts.
    pub fn new() -> (r: TickCounter)
        ensures
            r.ticks == 0,
    {
        TickCounter { ticks: 0 }
    }

    /// Advance the counter by one timer interrupt; reports the number of
    /// whole seconds elapsed exactly when a full second completes.
    pub fn tick(&mut self) -> (r: Option<u64>)
        requires
            old(self).ticks < u64::MAX,
        ensures
            final(self).ticks == old(self).ticks + 1,
            r == if (old(self).ticks + 1) as u64 % TICKS_PER_SEC == 0 {
                Some(((old(self).ticks + 1) as u64 / TICKS_PER_SEC) as u64)
            } else {
                None::<u64>
            },
    {
        self.ticks = self.ticks + 1;
        if self.ticks % TICKS_PER_SEC == 0 {
            Some(self.ticks / TICKS_PER_SEC)
        } else {
            None
        }
    }
}

/// The clock deadline at which the next timer interrupt is due, one
/// fixed interval past the current clock reading.
pub fn next_deadline(now: u64) -> (r: u64)
    requires
        now + TICK_INTERVAL <= u64::MAX,
    ensures
        r == now + TICK_INTERVAL,
{
    now + TICK_INTERVAL
}

} // verus!
