//! Repeating cooldown timers.
use vstd::prelude::*;

verus! {

/// A repeating timer: `elapsed` accumulates frame times and wraps round
/// `duration`; `finished` tells whether the last tick completed a period.
#[derive(Clone, Copy, Debug, PartialEq, Eq, Structural)]
pub struct Cooldown {
    pub duration: u64,
    pub elapsed: u64,
    pub finished: bool,
}

impl Cooldown {
    pub open spec fn wf(self) -> bool {
        0 < self.duration && self.elapsed < self.duration
    }

    /// The timer after `dt` more microseconds.
    pub open spec fn ticked(self, dt: int) -> Cooldown {
        Cooldown {
            duration: self.duration,
            elapsed: ((self.elapsed + dt) % (self.duration as int)) as u64,
            finished: self.elapsed + dt >= self.duration,
        }
    }

    /// A timer of `duration` microseconds that has just started.
    pub fn new(duration: u64) -> (r: Cooldown)
        requires
            duration > 0,
        ensures
            r == (Cooldown { duration, elapsed: 0, finished: false }),
            r.wf(),
    {
        Cooldown { duration, elapsed: 0, finished: false }
    }

    /// Advances the timer by `dt` microseconds; returns whether a period was
    /// completed, which then holds until the next tick.
    pub fn tick(&mut self, dt: u64) -> (r: bool)
        requires
            old(self).wf(),
        ensures
            *final(self) == old(self).ticked(dt as int),
            final(self).wf(),
            r == final(self).finished,
    {
        let total: u128 = self.elapsed as u128 + dt as u128;
        let d = self.duration as u128;
        self.elapsed = (total % d) as u64;
        self.finished = total >= d;
        self.finished
    }

    pub fn is_finished(&self) -> (r: bool)
        ensures
            r == self.finished,
    {
        self.finished
    }
}

} // verus!
