//! Lamport's logical clock.

use vstd::prelude::*;

verus! {

/// A logical clock.
#[derive(Debug, Clone)]
pub struct LamportClock {
    pub counter: u64,
}

impl LamportClock {
    /// A clock at 0.
    pub fn new() -> (r: Self)
        ensures
            r.counter == 0,
    {
        LamportClock { counter: 0 }
    }

    /// Moves on by one and returns the new time.
    pub fn tick(&mut self) -> (r: u64)
        requires
            old(self).counter < u64::MAX,
        ensures
            final(self).counter == old(self).counter + 1,
            r == final(self).counter,
    {
        self.counter = self.counter + 1;
        self.counter
    }

    /// Moves past both its own time and the one that was seen, and returns the new time.
    pub fn observe(&mut self, other: u64) -> (r: u64)
        requires
            old(self).counter < u64::MAX,
            other < u64::MAX,
        ensures
            final(self).counter == if old(self).counter >= other {
                old(self).counter + 1
            } else {
                other + 1
            },
            r == final(self).counter,
            r > old(self).counter,
            r > other,
    {
        if other > self.counter {
            self.counter = other;
        }
        self.counter = self.counter + 1;
        self.counter
    }

    /// The time.
    pub fn current(&self) -> (r: u64)
        ensures
            r == self.counter,
    {
        self.counter
    }
}

impl Default for LamportClock {
    fn default() -> (r: Self)
        ensures
            r.counter == 0,
    {
        LamportClock::new()
    }
}

} // verus!
