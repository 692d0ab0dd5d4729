//! The latest simulation cycle that has been seen: a mark that only rises.

use vstd::prelude::*;

verus! {

/// The high-water mark of the cycles of the messages that have come in.
pub struct CycleTracker {
    latest: u32,
}

impl View for CycleTracker {
    type V = u32;

    /// The mark.
    closed spec fn view(&self) -> u32 {
        self.latest
    }
}

impl CycleTracker {
    /// A tracker that has seen nothing: the mark is zero.
    pub fn new() -> (tracker: CycleTracker)
        ensures
            tracker@ == 0,
    {
        CycleTracker { latest: 0 }
    }

    /// Takes note of a message's cycle: the mark rises to `cycle` if that is
    /// higher, and never falls.
    pub fn observe(&mut self, cycle: u32)
        ensures
            final(self)@ == if cycle > old(self)@ {
                cycle
            } else {
                old(self)@
            },
            final(self)@ >= old(self)@,
    {
        if cycle > self.latest {
            self.latest = cycle;
        }
    }

    /// The mark.
    pub fn current(&self) -> (mark: u32)
        ensures
            mark == self@,
    {
        self.latest
    }
}

} // verus!
