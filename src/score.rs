//! The score counter and its redraw flag.
use vstd::prelude::*;

verus! {

/// The score and whether it changed since the display last read it.
#[derive(Clone, Copy, Debug, PartialEq, Eq, Structural)]
pub struct Score {
    pub score: i64,
    pub is_changed: bool,
}

impl Score {
    /// A zero score that still has to be drawn.
    pub fn new() -> (r: Score)
        ensures
            r == (Score { score: 0, is_changed: true }),
    {
        Score { score: 0, is_changed: true }
    }

    pub fn init_score(&mut self)
        ensures
            *final(self) == (Score { score: 0, is_changed: true }),
    {
        self.score = 0;
        self.is_changed = true;
    }

    pub fn get_score(&self) -> (r: i64)
        ensures
            r == self.score,
    {
        self.score
    }

    /// Reads and clears the redraw flag.
    pub fn get_is_changed(&mut self) -> (r: bool)
        ensures
            r == old(self).is_changed,
            *final(self) == (Score { score: old(self).score, is_changed: false }),
    {
        let ans = self.is_changed;
        self.is_changed = false;
        ans
    }

    pub fn add_score(&mut self, add_val: i64) -> (r: i64)
        requires
            i64::MIN <= old(self).score + add_val <= i64::MAX,
        ensures
            *final(self) == (Score { score: (old(self).score + add_val) as i64, is_changed: true }),
            r == final(self).score,
    {
        self.score = self.score + add_val;
        self.is_changed = true;
        self.score
    }
}

} // verus!
