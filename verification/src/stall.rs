//! Watching a pipeline for a stall: rule firing stops advancing while every
//! fifo reports full or empty.

use crate::pipeline::{PipeLineState, PipelineSample};
use vstd::prelude::*;

verus! {

/// Model of a watch: the number of fifos of the pipeline, and the most
/// rules that were seen firing in one cycle so far.
pub struct Watching {
    pub fifos: nat,
    pub most_fired: nat,
}

/// A watch over the states of one pipeline, cycle after cycle.
pub struct StallWatch {
    fifos: usize,
    most_fired: usize,
}

impl View for StallWatch {
    type V = Watching;

    closed spec fn view(&self) -> Watching {
        Watching { fifos: self.fifos as nat, most_fired: self.most_fired as nat }
    }
}

impl Watching {
    /// Whether a state shows progress: more rules fired than in any cycle
    /// seen before.
    pub open spec fn advances(self, state: PipelineSample) -> bool {
        state.fired.len() > self.most_fired
    }

    /// Whether a state shows a stall: no progress, and every fifo of the
    /// pipeline is full or empty.
    pub open spec fn stuck_at(self, state: PipelineSample) -> bool {
        !self.advances(state) && state.full.len() + state.empty.len() == self.fifos
    }

    /// The watch after a state was seen.
    pub open spec fn after(self, state: PipelineSample) -> Watching {
        if self.advances(state) {
            Watching { fifos: self.fifos, most_fired: state.fired.len() }
        } else {
            self
        }
    }
}

impl StallWatch {
    /// A watch over a pipeline of `fifos` fifos that has seen no state.
    pub fn new(fifos: usize) -> (watch: StallWatch)
        ensures
            watch@ == (Watching { fifos: fifos as nat, most_fired: 0 }),
    {
        StallWatch { fifos, most_fired: 0 }
    }

    /// Takes note of the pipeline's state in one cycle and says whether the
    /// pipeline is stuck in it.
    pub fn observe(&mut self, state: &PipeLineState) -> (stuck: bool)
        ensures
            final(self)@ == old(self)@.after(state@),
            stuck == old(self)@.stuck_at(state@),
    {
        if state.fire_rules.len() > self.most_fired {
            self.most_fired = state.fire_rules.len();
            false
        } else {
            state.full_fifos.len() <= self.fifos && state.empty_fifos.len() == self.fifos
                - state.full_fifos.len()
        }
    }
}

} // verus!
