//! The broker: the queues of both directions, the cycle mark, and what the
//! broker does with each request of the simulator.
//!
//! The broker is a state machine with a single owner. Whoever runs it reads
//! the requests from the connection, hands them to `serve_request` one by
//! one, and does what the returned `Reaction` says. The host drains the
//! messages of the simulator through the accessors and queues its replies
//! with `put`.

use crate::cycle::CycleTracker;
use crate::inbox::{keyed, Inbox};
use crate::join::{earliest_cycle, is_join, take_earliest_cycle, without_fronts};
use crate::message::{
    B2RMessage, GetPutMessage, HostToSim, R2BMessage, Request, SimToHost, SHUT_DOWN_ID,
};
use crate::pipeline::{
    earliest_among, sample_pipeline, sampled, PipeLineState, PipelineSample, ProbeType,
    ProtocolAssertionError, Sampling,
};
use crate::store::{views, QueueStore};
use crate::wire::{decode_request, parse_request, FramingError};
use vstd::prelude::*;

verus! {

/// The address of the connection's endpoint unless another is given.
pub const DEFAULT_SOCKET_PATH: &'static str = "/tmp/b2rr2b";

/// Model of the broker's state.
pub struct Broker {
    /// The address of the connection's endpoint.
    pub path: Seq<char>,
    /// The messages of the simulator that the host has not taken yet, by
    /// probe id, oldest first.
    pub to_host: Map<u32, Seq<SimToHost>>,
    /// The messages of the host that the simulator has not asked for yet,
    /// by probe id, oldest first.
    pub to_sim: Map<u32, Seq<HostToSim>>,
    /// The highest cycle of any message of the simulator so far.
    pub cycle: u32,
    /// Whether requests are still served.
    pub running: bool,
    /// The probes in the `Fifo` role, in the order in which they were given
    /// it.
    pub fifos: Seq<u32>,
    /// The probes in the `Fired` role, in the order in which they were
    /// given it.
    pub rules: Seq<u32>,
}

/// Model of what the broker asks of whoever runs it.
pub enum ReactionModel {
    Reply(Seq<u8>),
    Pending(u32),
    Stored,
    ShutDown,
    Closed,
}

/// What the broker asks of whoever runs it, after a request.
#[derive(Debug)]
pub enum Reaction {
    /// Write these bytes to the connection as they are, without a frame.
    Reply(Vec<u8>),
    /// Nothing is queued for the probe that the simulator asked for. Hand
    /// in the same `Get` again after a moment.
    Pending(u32),
    /// The message was queued. Read the next request.
    Stored,
    /// The message was queued and it ends the session. Read no more.
    ShutDown,
    /// The session has ended. The request was dropped.
    Closed,
}

impl View for Reaction {
    type V = ReactionModel;

    open spec fn view(&self) -> ReactionModel {
        match self {
            Reaction::Reply(bytes) => ReactionModel::Reply(bytes@),
            Reaction::Pending(id) => ReactionModel::Pending(*id),
            Reaction::Stored => ReactionModel::Stored,
            Reaction::ShutDown => ReactionModel::ShutDown,
            Reaction::Closed => ReactionModel::Closed,
        }
    }
}

/// The list `ids` with `id` in it: at the end, unless it is there already.
pub open spec fn listed(ids: Seq<u32>, id: u32) -> Seq<u32> {
    if ids.contains(id) {
        ids
    } else {
        ids.push(id)
    }
}

impl Broker {
    /// The broker before anything has happened: every queue is empty, the
    /// cycle mark is zero, no probe has a role, requests are served.
    pub open spec fn start(path: Seq<char>) -> Broker {
        Broker {
            path,
            to_host: Map::new(|id: u32| true, |id: u32| Seq::empty()),
            to_sim: Map::new(|id: u32| true, |id: u32| Seq::empty()),
            cycle: 0,
            running: true,
            fifos: Seq::empty(),
            rules: Seq::empty(),
        }
    }

    /// Whether every message of the simulator is filed under its own id.
    pub open spec fn wf(self) -> bool {
        keyed(self.to_host)
    }

    /// The same broker with other messages of the simulator.
    pub open spec fn with_to_host(self, to_host: Map<u32, Seq<SimToHost>>) -> Broker {
        Broker { to_host, ..self }
    }

    /// The broker after probe `id` was given a role. A probe is listed once
    /// in a role, however often it is given it.
    pub open spec fn with_role(self, role: ProbeType, id: u32) -> Broker {
        match role {
            ProbeType::Fifo => Broker { fifos: listed(self.fifos, id), ..self },
            ProbeType::Fired => Broker { rules: listed(self.rules, id), ..self },
        }
    }

    /// The oldest message of probe `id` that the host has not taken.
    pub open spec fn oldest(self, id: u32) -> Option<SimToHost> {
        if self.to_host[id].len() > 0 {
            Some(self.to_host[id][0])
        } else {
            None
        }
    }

    /// The broker after the host took the oldest message of probe `id`, if
    /// there was one.
    pub open spec fn take(self, id: u32) -> Broker {
        if self.to_host[id].len() > 0 {
            self.with_to_host(self.to_host.insert(id, self.to_host[id].drop_first()))
        } else {
            self
        }
    }

    /// The broker after the host took every message of probe `id`.
    pub open spec fn drain(self, id: u32) -> Broker {
        self.with_to_host(self.to_host.insert(id, Seq::empty()))
    }

    /// The broker after the host queued `payload` for probe `id`.
    pub open spec fn host_put(self, id: u32, payload: Seq<u8>) -> Broker {
        Broker {
            to_sim: self.to_sim.insert(id, self.to_sim[id].push(HostToSim { id, payload })),
            ..self
        }
    }

    /// The broker after a `Put` was served: the cycle mark rises to the
    /// message's cycle if that is higher, the message goes to the end of its
    /// probe's queue, and the shutdown id ends the session.
    pub open spec fn accept(self, message: SimToHost) -> Broker {
        Broker {
            to_host: self.to_host.insert(message.id, self.to_host[message.id].push(message)),
            cycle: if message.cycle > self.cycle {
                message.cycle
            } else {
                self.cycle
            },
            running: self.running && message.id != SHUT_DOWN_ID,
            ..self
        }
    }

    /// The broker after a `Get` was served: the oldest message that the
    /// host queued for the probe is gone, if there was one.
    pub open spec fn answer(self, id: u32) -> Broker {
        if self.to_sim[id].len() > 0 {
            Broker { to_sim: self.to_sim.insert(id, self.to_sim[id].drop_first()), ..self }
        } else {
            self
        }
    }

    /// The broker after a request. Once the session has ended, requests
    /// change nothing.
    pub open spec fn serve(self, request: Request) -> Broker {
        if !self.running {
            self
        } else {
            match request {
                Request::Get(id) => self.answer(id),
                Request::Put(message) => self.accept(message),
            }
        }
    }

    /// What the broker asks for after a request.
    pub open spec fn reaction(self, request: Request) -> ReactionModel {
        if !self.running {
            ReactionModel::Closed
        } else {
            match request {
                Request::Get(id) => if self.to_sim[id].len() > 0 {
                    ReactionModel::Reply(self.to_sim[id][0].payload)
                } else {
                    ReactionModel::Pending(id)
                },
                Request::Put(message) => if message.id == SHUT_DOWN_ID {
                    ReactionModel::ShutDown
                } else {
                    ReactionModel::Stored
                },
            }
        }
    }

    /// The broker after the cycle join: the oldest message is gone from
    /// each queue whose oldest message is of the earliest cycle.
    pub open spec fn joined(self) -> Broker {
        match earliest_cycle(self.to_host) {
            None => self,
            Some(cycle) => self.with_to_host(without_fronts(self.to_host, cycle)),
        }
    }

    /// The sampling of the pipeline's state with the given probes in the
    /// `Fifo` and `Fired` roles, if any of the `Fifo` probes has something
    /// queued.
    pub open spec fn sampling_with(self, fifos: Seq<u32>, rules: Seq<u32>) -> Option<Sampling> {
        match earliest_among(self.to_host, fifos) {
            None => None,
            Some(cycle) => Some(sampled(self.to_host, fifos, rules, cycle)),
        }
    }

    /// The broker after the pipeline's state was read with the given probes
    /// in the `Fifo` and `Fired` roles.
    pub open spec fn sampled_with(self, fifos: Seq<u32>, rules: Seq<u32>) -> Broker {
        match self.sampling_with(fifos, rules) {
            None => self,
            Some(end) => self.with_to_host(end.queues),
        }
    }

    /// Whether `result` is what reading the pipeline's state gives with the
    /// given probes in the `Fifo` and `Fired` roles: not ready with nothing
    /// queued for a `Fifo` probe, else the state that the sampling has
    /// classified, or the fault that stopped it.
    pub open spec fn reads_as(
        self,
        fifos: Seq<u32>,
        rules: Seq<u32>,
        result: Result<Option<PipelineSample>, ProtocolAssertionError>,
    ) -> bool {
        match self.sampling_with(fifos, rules) {
            None => result == Ok::<Option<PipelineSample>, ProtocolAssertionError>(None),
            Some(end) => match result {
                Ok(Some(state)) => end.fault is None && state == state_of(
                    end,
                    earliest_among(self.to_host, fifos)->Some_0,
                ),
                Ok(None) => false,
                Err(error) => end.fault == Some(error),
            },
        }
    }
}

/// What a sampling has classified, as the state of the cycle `cycle`.
pub open spec fn state_of(end: Sampling, cycle: u32) -> PipelineSample {
    PipelineSample { cycle, full: end.full, empty: end.empty, fired: end.fired }
}

/// The model of what reading the pipeline's state gave.
pub open spec fn read_model(result: Result<Option<PipeLineState>, ProtocolAssertionError>) -> Result<
    Option<PipelineSample>,
    ProtocolAssertionError,
> {
    match result {
        Ok(Some(state)) => Ok(Some(state@)),
        Ok(None) => Ok(None),
        Err(error) => Err(error),
    }
}

/// A server for the simulator's probes. It holds what came from the
/// simulator until the host takes it, and what the host sends until the
/// simulator asks for it.
pub struct B2RServer {
    socket_path: String,
    cycle: CycleTracker,
    b2r_cache: Inbox,
    r2b_cache: QueueStore<R2BMessage>,
    fifos: Vec<u32>,
    rules: Vec<u32>,
    running: bool,
}

impl View for B2RServer {
    type V = Broker;

    closed spec fn view(&self) -> Broker {
        Broker {
            path: self.socket_path@,
            to_host: self.b2r_cache@,
            to_sim: self.r2b_cache@,
            cycle: self.cycle@,
            running: self.running,
            fifos: self.fifos@,
            rules: self.rules@,
        }
    }
}

/// Whether `id` is among `ids`.
pub fn holds(ids: &Vec<u32>, id: u32) -> (found: bool)
    ensures
        found == ids@.contains(id),
{
    let mut i: usize = 0;
    while i < ids.len()
        invariant
            i <= ids.len(),
            forall|k: int| 0 <= k < i ==> ids@[k] != id,
        decreases ids.len() - i,
    {
        if ids[i] == id {
            return true;
        }
        i += 1;
    }
    false
}

impl B2RServer {
    /// A server at the given address, with empty queues and no probe roles.
    pub fn new_with(path: &str) -> (server: B2RServer)
        ensures
            server@ == Broker::start(path@),
            server@.wf(),
    {
        let server = B2RServer {
            socket_path: path.to_owned(),
            cycle: CycleTracker::new(),
            b2r_cache: Inbox::new(),
            r2b_cache: QueueStore::new(),
            fifos: Vec::new(),
            rules: Vec::new(),
            running: true,
        };
        proof {
            assert(server@.to_host =~= Broker::start(path@).to_host);
            assert(server@.to_sim =~= Broker::start(path@).to_sim);
        }
        server
    }

    /// A server at the default address, with empty queues and no probe
    /// roles.
    pub fn new() -> (server: B2RServer)
        ensures
            server@ == Broker::start(DEFAULT_SOCKET_PATH@),
            server@.wf(),
    {
        B2RServer::new_with(DEFAULT_SOCKET_PATH)
    }

    /// The address of the connection's endpoint.
    pub fn socket_path(&self) -> (path: &str)
        ensures
            path@ == self@.path,
    {
        self.socket_path.as_str()
    }

    /// The highest cycle of any message of the simulator so far.
    pub fn current_cycle(&self) -> (cycle: u32)
        ensures
            cycle == self@.cycle,
    {
        self.cycle.current()
    }

    /// Whether requests are still served: no message with the shutdown id
    /// has come in.
    pub fn running(&self) -> (running: bool)
        ensures
            running == self@.running,
    {
        self.running
    }

    /// Gives probe `id` a role in the classification of the pipeline's
    /// state. Giving a probe the same role again changes nothing.
    pub fn give_type(&mut self, probe_type: ProbeType, id: u32)
        ensures
            final(self)@ == old(self)@.with_role(probe_type, id),
            final(self)@.wf(),
    {
        proof {
            self.b2r_cache.keyedness();
        }
        match probe_type {
            ProbeType::Fifo => {
                if !holds(&self.fifos, id) {
                    self.fifos.push(id);
                }
            },
            ProbeType::Fired => {
                if !holds(&self.rules, id) {
                    self.rules.push(id);
                }
            },
        }
    }

    /// Queues a message for probe `id`. The simulator is handed it when it
    /// asks for that probe and everything queued before has been handed
    /// out. The payload must have one byte for each started eight bits of
    /// the probe's get width: the simulator reads that many.
    pub fn put(&mut self, id: u32, message: Vec<u8>)
        ensures
            final(self)@ == old(self)@.host_put(id, message@),
            final(self)@.wf(),
    {
        proof {
            self.b2r_cache.keyedness();
        }
        self.r2b_cache.push_back(id, R2BMessage { id, message });
    }

    /// Takes the oldest message of probe `id`, if the simulator has sent
    /// one that has not been taken.
    pub fn try_get(&mut self, id: u32) -> (oldest: Option<B2RMessage>)
        ensures
            final(self)@ == old(self)@.take(id),
            final(self)@.wf(),
            match oldest {
                Some(message) => old(self)@.oldest(id) == Some(message@) && message.id == id,
                None => old(self)@.oldest(id) is None,
            },
    {
        let oldest = self.b2r_cache.pop_front(id);
        proof {
            old(self).b2r_cache.keyedness();
            self.b2r_cache.keyedness();
        }
        oldest
    }

    /// Takes the oldest message of probe `id`. There must be one: to wait
    /// for a message, ask with `try_get` until it gives one.
    pub fn get(&mut self, id: u32) -> (oldest: B2RMessage)
        requires
            old(self)@.to_host[id].len() > 0,
        ensures
            final(self)@ == old(self)@.take(id),
            final(self)@.wf(),
            oldest@ == old(self)@.to_host[id][0],
            oldest.id == id,
    {
        self.try_get(id).unwrap()
    }

    /// Takes every message of probe `id` that has not been taken, oldest
    /// first.
    pub fn get_id_all(&mut self, id: u32) -> (messages: Vec<B2RMessage>)
        ensures
            final(self)@ == old(self)@.drain(id),
            final(self)@.wf(),
            views(messages@) == old(self)@.to_host[id],
    {
        let messages = self.b2r_cache.drain(id);
        proof {
            self.b2r_cache.keyedness();
        }
        messages
    }

    /// Takes everything the simulator emitted during the earliest cycle
    /// that has not been drained: the oldest message of every probe whose
    /// oldest message is of the least cycle among them, in no particular
    /// order. With nothing queued for any probe, nothing is taken.
    pub fn get_cycle_message(&mut self) -> (messages: Vec<B2RMessage>)
        ensures
            final(self)@ == old(self)@.joined(),
            final(self)@.wf(),
            match earliest_cycle(old(self)@.to_host) {
                None => messages@.len() == 0,
                Some(cycle) => is_join(old(self)@.to_host, cycle, views(messages@)),
            },
    {
        let messages = take_earliest_cycle(&mut self.b2r_cache);
        proof {
            self.b2r_cache.keyedness();
        }
        messages
    }

    /// Reads the pipeline's state in the earliest cycle that the given
    /// `Fifo` probes have reported and that is still queued.
    ///
    /// - `Ok(None)`: not ready. Nothing is queued for any `Fifo` probe, and
    ///   nothing is taken.
    /// - `Ok(Some(state))`: the probes were visited in the order of the
    ///   lists, `fifos` before `rules`, and every report of the sampled
    ///   cycle was taken and classified.
    /// - `Err(error)`: a report of the sampled cycle does not have the
    ///   width of its probe's role. It stays queued, and so does what the
    ///   probes behind it reported; what was taken before it is gone.
    pub fn sample_with(&mut self, fifos: &Vec<u32>, rules: &Vec<u32>) -> (result: Result<
        Option<PipeLineState>,
        ProtocolAssertionError,
    >)
        ensures
            final(self)@ == old(self)@.sampled_with(fifos@, rules@),
            final(self)@.wf(),
            old(self)@.reads_as(fifos@, rules@, read_model(result)),
    {
        let result = sample_pipeline(&mut self.b2r_cache, fifos, rules);
        proof {
            self.b2r_cache.keyedness();
        }
        result
    }

    /// Reads the pipeline's state in the earliest cycle that the probes in
    /// the `Fifo` role have reported and that is still queued, with the
    /// probes that were given their roles by `give_type`. See `sample_with`.
    pub fn get_pipeline_state(&mut self) -> (result: Result<
        Option<PipeLineState>,
        ProtocolAssertionError,
    >)
        ensures
            final(self)@ == old(self)@.sampled_with(old(self)@.fifos, old(self)@.rules),
            final(self)@.wf(),
            old(self)@.reads_as(old(self)@.fifos, old(self)@.rules, read_model(result)),
    {
        let result = sample_pipeline(&mut self.b2r_cache, &self.fifos, &self.rules);
        proof {
            self.b2r_cache.keyedness();
        }
        result
    }

    /// Serves one request of the simulator.
    ///
    /// - `Get(id)`: the oldest message that the host queued for `id` is
    ///   taken and comes back as `Reply`; with nothing queued the answer is
    ///   `Pending` and nothing changes.
    /// - `Put(message)`: the cycle mark rises to the message's cycle if that
    ///   is higher, and the message goes to the end of its probe's queue.
    ///   A message with the shutdown id ends the session once it is queued.
    /// - After the session has ended every request is dropped.
    pub fn serve_request(&mut self, request: GetPutMessage) -> (reaction: Reaction)
        ensures
            final(self)@ == old(self)@.serve(request@),
            final(self)@.wf(),
            reaction@ == old(self)@.reaction(request@),
    {
        proof {
            self.b2r_cache.keyedness();
        }
        if !self.running {
            return Reaction::Closed;
        }
        match request {
            GetPutMessage::Get(id) => match self.r2b_cache.pop_front(id) {
                Some(reply) => Reaction::Reply(reply.message),
                None => Reaction::Pending(id),
            },
            GetPutMessage::Put(message) => {
                let id: u32 = message.id;
                self.cycle.observe(message.cycles);
                self.b2r_cache.push_back(message);
                if id == SHUT_DOWN_ID {
                    self.running = false;
                    Reaction::ShutDown
                } else {
                    Reaction::Stored
                }
            },
        }
    }

    /// Serves the request that the body of a frame holds.
    ///
    /// Fails with `Malformed`, and changes nothing, exactly when the body
    /// is not a request.
    pub fn serve_frame(&mut self, body: &[u8]) -> (result: Result<Reaction, FramingError>)
        ensures
            final(self)@.wf(),
            match parse_request(body@) {
                Some(request) => {
                    &&& final(self)@ == old(self)@.serve(request)
                    &&& result matches Ok(reaction) && reaction@ == old(self)@.reaction(request)
                },
                None => final(self)@ == old(self)@ && result == Err::<Reaction, FramingError>(
                    FramingError::Malformed,
                ),
            },
    {
        proof {
            self.b2r_cache.keyedness();
        }
        match decode_request(body) {
            Ok(request) => Ok(self.serve_request(request)),
            Err(error) => Err(error),
        }
    }
}

} // verus!
