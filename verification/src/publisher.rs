//! The broker in event-driven style: subscribers are called once for each
//! completed cycle with the messages of the probes they subscribed to, and
//! what they return is queued for the simulator.
//!
//! The publisher decides; it does not wait. Whoever runs it calls `serve`
//! again and again, tells it how long the current batch has been idle, and
//! feeds the simulator's requests to `serve_request` in between.

use crate::getter::CycleGetter;
use crate::join::{earliest_cycle, is_join};
use crate::message::{copy_bytes, B2RMessage, GetPutMessage, HostToSim, R2BMessage, SimToHost};
use crate::server::{holds, B2RServer, Broker, Reaction};
use crate::store::views;
use vstd::prelude::*;

verus! {

/// The seconds after which a batch is handed out although no later cycle
/// has begun: the simulator may go through stretches without any output.
pub const IDLE_LIMIT_SECS: u64 = 1;

/// A listener to the messages of chosen probes.
pub trait Subscriber {
    /// Called when the messages of a cycle have arrived, with those of the
    /// subscribed probes. What it returns is queued for the simulator.
    fn update(&mut self, messages: Vec<B2RMessage>) -> Vec<R2BMessage>;

    /// The ids of the subscribed probes.
    fn subscribed_ids(&self) -> Vec<u32>;
}

/// What one turn of serving did.
#[derive(Clone, Copy, Debug, PartialEq, Eq, Structural)]
pub enum Turn {
    /// The batch is not complete. What the cycle join gave was added to it.
    Gathered,
    /// The batch was handed to the subscribers. The session goes on.
    Dispatched,
    /// The batch was handed to the subscribers and the session has ended.
    Finished,
}

/// Model of a publisher, without its subscribers.
pub struct Publishing {
    /// The broker.
    pub broker: Broker,
    /// The cycle mark at the time of the last dispatch.
    pub dispatched: u32,
    /// The batch: the messages gathered since the last dispatch.
    pub pending: Seq<SimToHost>,
    /// The number of subscribers.
    pub subscribers: nat,
}

/// Whether a message is of one of the probes `ids`.
pub open spec fn subscribed(ids: Seq<u32>, message: SimToHost) -> bool {
    ids.contains(message.id)
}

/// The messages among `messages` that are of one of the probes `ids`, in
/// their order.
pub open spec fn selection(messages: Seq<SimToHost>, ids: Seq<u32>) -> Seq<SimToHost> {
    messages.filter(|message: SimToHost| subscribed(ids, message))
}

impl Broker {
    /// The broker after the host queued each of `replies` for its probe, in
    /// order.
    pub open spec fn host_put_all(self, replies: Seq<HostToSim>) -> Broker
        decreases replies.len(),
    {
        if replies.len() == 0 {
            self
        } else {
            self.host_put(replies[0].id, replies[0].payload).host_put_all(replies.drop_first())
        }
    }

    /// Whether `later` is this broker after the host queued some more
    /// messages for the simulator: nothing else has changed, and what was
    /// queued for each probe is still there, in front.
    pub open spec fn grown_to(self, later: Broker) -> bool {
        &&& later.path == self.path
        &&& later.to_host == self.to_host
        &&& later.cycle == self.cycle
        &&& later.running == self.running
        &&& later.fifos == self.fifos
        &&& later.rules == self.rules
        &&& forall|id: u32| #[trigger] self.to_sim[id].is_prefix_of(later.to_sim[id])
    }
}

/// Queuing replies only adds to what is queued for the simulator.
pub proof fn replies_only_add(broker: Broker, replies: Seq<HostToSim>)
    ensures
        broker.grown_to(broker.host_put_all(replies)),
    decreases replies.len(),
{
    if replies.len() > 0 {
        let next = broker.host_put(replies[0].id, replies[0].payload);
        replies_only_add(next, replies.drop_first());
        let end = next.host_put_all(replies.drop_first());
        assert forall|id: u32| #[trigger] broker.to_sim[id].is_prefix_of(end.to_sim[id]) by {
            assert(broker.to_sim[id].is_prefix_of(next.to_sim[id]));
            assert(next.to_sim[id].is_prefix_of(end.to_sim[id]));
        }
    } else {
        assert forall|id: u32| #[trigger] broker.to_sim[id].is_prefix_of(broker.to_sim[id]) by {}
    }
}

/// The messages among `messages` that are of one of the probes `ids`, as
/// copies, in their order.
pub fn select(messages: &Vec<B2RMessage>, ids: &Vec<u32>) -> (chosen: Vec<B2RMessage>)
    ensures
        views(chosen@) == selection(views(messages@), ids@),
{
    let mut chosen: Vec<B2RMessage> = Vec::new();
    let ghost pred = |message: SimToHost| subscribed(ids@, message);
    let mut i: usize = 0;
    proof {
        reveal(Seq::filter);
        assert(views(messages@).subrange(0, 0) =~= Seq::<SimToHost>::empty());
        assert(views(chosen@) =~= Seq::<SimToHost>::empty());
    }
    while i < messages.len()
        invariant
            i <= messages.len(),
            pred == |message: SimToHost| subscribed(ids@, message),
            views(chosen@) == views(messages@).subrange(0, i as int).filter(pred),
        decreases messages.len() - i,
    {
        let ghost before = views(messages@).subrange(0, i as int);
        let ghost held = chosen@;
        let wanted: bool = holds(ids, messages[i].id);
        if wanted {
            let copy = B2RMessage {
                id: messages[i].id,
                cycles: messages[i].cycles,
                message: copy_bytes(&messages[i].message),
            };
            chosen.push(copy);
        }
        proof {
            reveal(Seq::filter);
            let now = views(messages@).subrange(0, i + 1);
            assert(now.drop_last() =~= before);
            assert(now.last() == messages@[i as int]@);
            if wanted {
                assert(views(chosen@) =~= views(held).push(messages@[i as int]@));
            }
        }
        i += 1;
    }
    proof {
        assert(views(messages@).subrange(0, i as int) =~= views(messages@));
    }
    chosen
}

/// Queues each of `replies` for its probe, in order.
pub fn forward(server: &mut B2RServer, replies: Vec<R2BMessage>)
    ensures
        final(server)@ == old(server)@.host_put_all(views(replies@)),
{
    let mut replies = replies;
    let ghost all = views(replies@);
    let mut i: usize = 0;
    let count: usize = replies.len();
    proof {
        assert(all.subrange(0, all.len() as int) =~= all);
    }
    while i < count
        invariant
            i <= count,
            count == replies@.len(),
            views(replies@) == all,
            server@.host_put_all(all.subrange(i as int, all.len() as int)) == old(
                server,
            )@.host_put_all(all),
        decreases count - i,
    {
        let ghost rest = all.subrange(i as int, all.len() as int);
        proof {
            assert(rest[0] == all[i as int]);
            assert(rest.drop_first() =~= all.subrange(i + 1, all.len() as int));
        }
        let payload = copy_bytes(&replies[i].message);
        server.put(replies[i].id, payload);
        i += 1;
    }
    proof {
        assert(all.subrange(i as int, all.len() as int) =~= Seq::<HostToSim>::empty());
    }
}

/// Growth adds up: what has grown twice has grown.
pub proof fn growth_adds_up(first: Broker, second: Broker, third: Broker)
    requires
        first.grown_to(second),
        second.grown_to(third),
    ensures
        first.grown_to(third),
{
    assert forall|id: u32| #[trigger] first.to_sim[id].is_prefix_of(third.to_sim[id]) by {
        assert(first.to_sim[id].is_prefix_of(second.to_sim[id]));
        assert(second.to_sim[id].is_prefix_of(third.to_sim[id]));
    }
}

/// A wrapper of the server that calls subscribers once for each cycle.
pub struct B2RPublisher<S: Subscriber> {
    server: B2RServer,
    cycle_getter: CycleGetter,
    subscribers: Vec<S>,
    cycle: u32,
    pending: Vec<B2RMessage>,
}

impl<S: Subscriber> View for B2RPublisher<S> {
    type V = Publishing;

    closed spec fn view(&self) -> Publishing {
        Publishing {
            broker: self.server@,
            dispatched: self.cycle,
            pending: views(self.pending@),
            subscribers: self.subscribers@.len(),
        }
    }
}

impl Publishing {
    /// Whether the batch is complete: a later cycle has begun since the
    /// last dispatch, or the batch has been idle for the limit.
    pub open spec fn complete(self, idle_secs: u64) -> bool {
        self.broker.cycle > self.dispatched || idle_secs >= IDLE_LIMIT_SECS
    }

    /// Whether `later` is this publisher after one more cycle join was
    /// added to the batch.
    pub open spec fn gathered_to(self, later: Publishing) -> bool {
        &&& later.broker == self.broker.joined()
        &&& later.dispatched == self.dispatched
        &&& later.subscribers == self.subscribers
        &&& self.pending.is_prefix_of(later.pending)
        &&& match earliest_cycle(self.broker.to_host) {
            None => later.pending == self.pending,
            Some(cycle) => is_join(
                self.broker.to_host,
                cycle,
                later.pending.subrange(self.pending.len() as int, later.pending.len() as int),
            ),
        }
    }

    /// Whether `later` is this publisher after the batch was handed to the
    /// subscribers: the batch is empty, and the broker has only grown by
    /// what the subscribers returned.
    pub open spec fn dispatched_to(self, later: Publishing) -> bool {
        &&& self.broker.grown_to(later.broker)
        &&& later.pending == Seq::<SimToHost>::empty()
        &&& later.dispatched == self.dispatched
        &&& later.subscribers == self.subscribers
    }
}

impl<S: Subscriber> B2RPublisher<S> {
    /// A publisher with a server at the given address, no subscribers, and
    /// an empty batch.
    pub fn new_with(path: &str) -> (publisher: B2RPublisher<S>)
        ensures
            publisher@ == (Publishing {
                broker: Broker::start(path@),
                dispatched: 0,
                pending: Seq::empty(),
                subscribers: 0,
            }),
    {
        let server = B2RServer::new_with(path);
        let cycle_getter = CycleGetter::new(&server);
        let publisher = B2RPublisher {
            server,
            cycle_getter,
            subscribers: Vec::new(),
            cycle: 0,
            pending: Vec::new(),
        };
        proof {
            assert(views(publisher.pending@) =~= Seq::<SimToHost>::empty());
        }
        publisher
    }

    /// Adds a subscriber. Subscribers are called in the order in which they
    /// were added.
    pub fn add_subscriber(&mut self, subscriber: S)
        ensures
            final(self)@ == (Publishing {
                subscribers: (old(self)@.subscribers + 1) as nat,
                ..old(self)@
            }),
    {
        self.subscribers.push(subscriber);
    }

    /// The server.
    pub fn server(&self) -> (server: &B2RServer)
        ensures
            server@ == self@.broker,
    {
        &self.server
    }

    /// Serves one request of the simulator. See `B2RServer::serve_request`.
    pub fn serve_request(&mut self, request: GetPutMessage) -> (reaction: Reaction)
        ensures
            final(self)@ == (Publishing {
                broker: old(self)@.broker.serve(request@),
                ..old(self)@
            }),
            reaction@ == old(self)@.broker.reaction(request@),
    {
        self.server.serve_request(request)
    }

    /// One turn of gathering. If the batch is complete, the cycle mark is
    /// noted as dispatched and nothing else changes. Otherwise the cycle
    /// join is taken from the server and added to the batch.
    pub fn gather(&mut self, idle_secs: u64) -> (complete: bool)
        ensures
            complete == old(self)@.complete(idle_secs),
            complete ==> final(self)@ == (Publishing {
                dispatched: old(self)@.broker.cycle,
                ..old(self)@
            }),
            !complete ==> old(self)@.gathered_to(final(self)@),
    {
        let server_cycle: u32 = self.server.current_cycle();
        if server_cycle > self.cycle || idle_secs >= IDLE_LIMIT_SECS {
            self.cycle = server_cycle;
            return true;
        }
        let ghost before = self.pending@;
        let mut taken = self.cycle_getter.get_cycle_message(&mut self.server);
        let ghost added = taken@;
        self.pending.append(&mut taken);
        proof {
            assert(views(before + added) =~= views(before) + views(added));
            assert(views(self.pending@).subrange(
                views(before).len() as int,
                views(self.pending@).len() as int,
            ) =~= views(added));
            if earliest_cycle(old(self)@.broker.to_host) is None {
                assert(views(self.pending@) =~= views(before));
            }
        }
        false
    }

    /// Hands the batch to the subscribers, in the order in which they were
    /// added: each is called with the messages of its probes, and what it
    /// returns is queued for the simulator. The batch is empty afterwards.
    /// Returns whether the session goes on.
    pub fn dispatch(&mut self) -> (running: bool)
        ensures
            old(self)@.dispatched_to(final(self)@),
            running == old(self)@.broker.running,
    {
        let ghost start = self.server@;
        let mut i: usize = 0;
        proof {
            replies_only_add(start, Seq::empty());
        }
        while i < self.subscribers.len()
            invariant
                i <= self.subscribers@.len(),
                self.subscribers@.len() == old(self).subscribers@.len(),
                self.cycle == old(self).cycle,
                self.pending@ == old(self).pending@,
                start == old(self).server@,
                start.grown_to(self.server@),
            decreases self.subscribers@.len() - i,
        {
            let ghost before = self.server@;
            let mut subscriber = self.subscribers.remove(i);
            let ids = subscriber.subscribed_ids();
            let chosen = select(&self.pending, &ids);
            let replies = subscriber.update(chosen);
            let ghost returned = views(replies@);
            forward(&mut self.server, replies);
            self.subscribers.insert(i, subscriber);
            proof {
                replies_only_add(before, returned);
                growth_adds_up(start, before, self.server@);
            }
            i += 1;
        }
        self.pending.clear();
        proof {
            assert(views(self.pending@) =~= Seq::<SimToHost>::empty());
        }
        self.server.running()
    }

    /// One turn of serving.
    ///
    /// - While the batch is not complete, the cycle join is taken from the
    ///   server and added to the batch: `Gathered`.
    /// - Once a later cycle has begun since the last dispatch, or the batch
    ///   has been idle for `IDLE_LIMIT_SECS`, the batch is handed to the
    ///   subscribers: `Dispatched`, or `Finished` if the session has ended.
    ///
    /// `idle_secs` is the time since the last dispatch, in whole seconds.
    pub fn serve(&mut self, idle_secs: u64) -> (turn: Turn)
        ensures
            old(self)@.complete(idle_secs) <==> turn != Turn::Gathered,
            turn == Turn::Gathered ==> old(self)@.gathered_to(final(self)@),
            turn != Turn::Gathered ==> {
                &&& (Publishing { dispatched: old(self)@.broker.cycle, ..old(self)@ }).dispatched_to(
                    final(self)@,
                )
                &&& (turn == Turn::Finished <==> !old(self)@.broker.running)
            },
    {
        if self.gather(idle_secs) {
            if self.dispatch() {
                Turn::Dispatched
            } else {
                Turn::Finished
            }
        } else {
            Turn::Gathered
        }
    }
}

} // verus!
