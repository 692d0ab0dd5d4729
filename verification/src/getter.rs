//! The accessors through which the host drains what the simulator sent:
//! by probe id, by cycle, and as the state of a pipeline.
//!
//! An accessor holds no messages. The server is handed to each call.

use crate::join::{earliest_cycle, is_join};
use crate::message::B2RMessage;
use crate::pipeline::{PipeLineState, ProtocolAssertionError};
use crate::server::{read_model, B2RServer};
use crate::store::views;
use vstd::prelude::*;

verus! {

/// Access by probe id.
pub struct IDGetter {}

impl IDGetter {
    /// An accessor for `server`.
    pub fn new(server: &B2RServer) -> (getter: IDGetter) {
        IDGetter {  }
    }

    /// Takes the oldest message of probe `id`. There must be one: to wait
    /// for a message, ask with `try_get` until it gives one.
    pub fn get(&mut self, server: &mut B2RServer, id: u32) -> (oldest: B2RMessage)
        requires
            old(server)@.to_host[id].len() > 0,
        ensures
            final(server)@ == old(server)@.take(id),
            oldest@ == old(server)@.to_host[id][0],
            oldest.id == id,
    {
        server.get(id)
    }

    /// Takes every message of probe `id` that has not been taken, oldest
    /// first.
    pub fn get_id_all(&mut self, server: &mut B2RServer, id: u32) -> (messages: Vec<B2RMessage>)
        ensures
            final(server)@ == old(server)@.drain(id),
            views(messages@) == old(server)@.to_host[id],
    {
        server.get_id_all(id)
    }

    /// Takes the oldest message of probe `id`, if the simulator has sent
    /// one that has not been taken.
    pub fn try_get(&mut self, server: &mut B2RServer, id: u32) -> (oldest: Option<B2RMessage>)
        ensures
            final(server)@ == old(server)@.take(id),
            match oldest {
                Some(message) => old(server)@.oldest(id) == Some(message@) && message.id == id,
                None => old(server)@.oldest(id) is None,
            },
    {
        server.try_get(id)
    }
}

/// Access by cycle.
pub struct CycleGetter {}

impl CycleGetter {
    /// An accessor for `server`.
    pub fn new(server: &B2RServer) -> (getter: CycleGetter) {
        CycleGetter {  }
    }

    /// Takes everything the simulator emitted during the earliest cycle
    /// that has not been drained: the oldest message of every probe whose
    /// oldest message is of the least cycle among them, in no particular
    /// order. With nothing queued for any probe, nothing is taken.
    pub fn get_cycle_message(&mut self, server: &mut B2RServer) -> (messages: Vec<B2RMessage>)
        ensures
            final(server)@ == old(server)@.joined(),
            match earliest_cycle(old(server)@.to_host) {
                None => messages@.len() == 0,
                Some(cycle) => is_join(old(server)@.to_host, cycle, views(messages@)),
            },
    {
        server.get_cycle_message()
    }
}

/// The probes of a pipeline, by role, each list in the order in which the
/// probes were added.
pub struct Roles {
    pub fifos: Seq<u32>,
    pub rules: Seq<u32>,
}

/// Access to the state of a pipeline.
pub struct PipeLineGetter {
    fifos: Vec<u32>,
    rules: Vec<u32>,
}

impl View for PipeLineGetter {
    type V = Roles;

    closed spec fn view(&self) -> Roles {
        Roles { fifos: self.fifos@, rules: self.rules@ }
    }
}

impl PipeLineGetter {
    /// An accessor for `server`, with no probes yet.
    pub fn new(server: &B2RServer) -> (getter: PipeLineGetter)
        ensures
            getter@ == (Roles { fifos: Seq::empty(), rules: Seq::empty() }),
    {
        PipeLineGetter { fifos: Vec::new(), rules: Vec::new() }
    }

    /// Adds a fifo probe: one that reports two bytes in every cycle, the
    /// first "not full", the second "not empty".
    pub fn add_fifo_probe(&mut self, id: u32)
        ensures
            final(self)@ == (Roles { fifos: old(self)@.fifos.push(id), rules: old(self)@.rules }),
    {
        self.fifos.push(id);
    }

    /// Adds a rule probe: one that reports one byte in each cycle in which
    /// its rule fired.
    pub fn add_rule_probe(&mut self, id: u32)
        ensures
            final(self)@ == (Roles { fifos: old(self)@.fifos, rules: old(self)@.rules.push(id) }),
    {
        self.rules.push(id);
    }

    /// Reads the pipeline's state in the earliest cycle that the fifo
    /// probes have reported and that is still queued.
    ///
    /// - `Ok(None)`: not ready. Nothing is queued for any fifo probe, and
    ///   nothing is taken.
    /// - `Ok(Some(state))`: the probes were visited in the order in which
    ///   they were added, fifo probes before rule probes, and every report
    ///   of the sampled cycle was taken and classified.
    /// - `Err(error)`: a report of the sampled cycle does not have the
    ///   width of its probe's role. It stays queued, and so does what the
    ///   probes behind it reported; what was taken before it is gone.
    pub fn get_pipeline_state(&mut self, server: &mut B2RServer) -> (result: Result<
        Option<PipeLineState>,
        ProtocolAssertionError,
    >)
        ensures
            final(self)@ == old(self)@,
            final(server)@ == old(server)@.sampled_with(old(self)@.fifos, old(self)@.rules),
            old(server)@.reads_as(old(self)@.fifos, old(self)@.rules, read_model(result)),
    {
        server.sample_with(&self.fifos, &self.rules)
    }
}

} // verus!
