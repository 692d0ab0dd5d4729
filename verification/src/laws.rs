//! What holds of the broker over more than one step.
//!
//! The laws speak of the broker's model. Every executable operation of
//! `B2RServer` is tied to one step of the model by its contract, so a law
//! proved of the model holds of every run of the server.

use crate::message::{HostToSim, Request, SimToHost, SHUT_DOWN_ID};
use crate::server::{Broker, ReactionModel};
use vstd::prelude::*;

verus! {

/// One thing that happens to the broker.
pub enum Event {
    /// The simulator sent a request.
    Wire(Request),
    /// The host queued a payload for a probe.
    HostPut(u32, Seq<u8>),
    /// The host asked for the oldest message of a probe.
    HostTake(u32),
    /// The host took every message of a probe.
    HostDrain(u32),
}

impl Broker {
    /// The broker after one event.
    pub open spec fn step(self, event: Event) -> Broker {
        match event {
            Event::Wire(request) => self.serve(request),
            Event::HostPut(id, payload) => self.host_put(id, payload),
            Event::HostTake(id) => self.take(id),
            Event::HostDrain(id) => self.drain(id),
        }
    }

    /// The broker after a run of events, in order.
    pub open spec fn run(self, events: Seq<Event>) -> Broker
        decreases events.len(),
    {
        if events.len() == 0 {
            self
        } else {
            self.step(events[0]).run(events.drop_first())
        }
    }

    /// The broker after a run of requests of the simulator, in order.
    pub open spec fn serve_all(self, requests: Seq<Request>) -> Broker
        decreases requests.len(),
    {
        if requests.len() == 0 {
            self
        } else {
            self.serve(requests[0]).serve_all(requests.drop_first())
        }
    }
}

/// Whether an event leaves the messages of probe `id` for the host alone:
/// it is no `Put` of that probe, and the host does not take from it.
pub open spec fn spares(event: Event, id: u32) -> bool {
    match event {
        Event::Wire(Request::Put(message)) => message.id != id,
        Event::Wire(Request::Get(_)) => true,
        Event::HostPut(_, _) => true,
        Event::HostTake(other) => other != id,
        Event::HostDrain(other) => other != id,
    }
}

/// Whether every event of a run leaves the messages of probe `id` alone.
pub open spec fn all_spare(events: Seq<Event>, id: u32) -> bool {
    forall|i: int| 0 <= i < events.len() ==> spares(#[trigger] events[i], id)
}

/// Whether an event is a `Put` with the shutdown id.
pub open spec fn shuts_down(event: Event) -> bool {
    event matches Event::Wire(Request::Put(message)) && message.id == SHUT_DOWN_ID
}

/// Whether no event of a run is a `Put` with the shutdown id.
pub open spec fn none_shuts_down(events: Seq<Event>) -> bool {
    forall|i: int| 0 <= i < events.len() ==> !shuts_down(#[trigger] events[i])
}

/// Events on other probes do not touch a probe's queue: a run that spares
/// probe `id` leaves its messages for the host as they were.
pub proof fn other_probes_do_not_interfere(broker: Broker, events: Seq<Event>, id: u32)
    requires
        all_spare(events, id),
    ensures
        broker.run(events).to_host[id] == broker.to_host[id],
    decreases events.len(),
{
    if events.len() > 0 {
        let next = broker.step(events[0]);
        assert(spares(events[0], id));
        assert(next.to_host[id] == broker.to_host[id]);
        assert forall|i: int| 0 <= i < events.drop_first().len() implies spares(
            #[trigger] events.drop_first()[i],
            id,
        ) by {
            assert(spares(events[i + 1], id));
        }
        other_probes_do_not_interfere(next, events.drop_first(), id);
    }
}

/// The session goes on until a `Put` with the shutdown id comes in: a run
/// without one leaves a running broker running.
pub proof fn session_goes_on(broker: Broker, events: Seq<Event>)
    requires
        broker.running,
        none_shuts_down(events),
    ensures
        broker.run(events).running,
    decreases events.len(),
{
    if events.len() > 0 {
        let next = broker.step(events[0]);
        assert(!shuts_down(events[0]));
        assert(next.running);
        assert forall|i: int| 0 <= i < events.drop_first().len() implies !shuts_down(
            #[trigger] events.drop_first()[i],
        ) by {
            assert(!shuts_down(events[i + 1]));
        }
        session_goes_on(next, events.drop_first());
    }
}

/// First in, first out: two messages that the simulator puts for one probe
/// come out of that probe's queue in the order in which they went in,
/// behind what was queued before, whatever happens to other probes in
/// between. If nothing was queued before, the host's first take gives the
/// first message, its second take the second, and a third finds nothing.
///
/// The session must be running when the messages come in: the probe is not
/// the shutdown id, and no event before the second message shuts down.
pub proof fn fifo_order(
    broker: Broker,
    first: SimToHost,
    second: SimToHost,
    before_second: Seq<Event>,
    before_takes: Seq<Event>,
    between_takes: Seq<Event>,
)
    requires
        broker.running,
        first.id == second.id,
        first.id != SHUT_DOWN_ID,
        all_spare(before_second, first.id),
        none_shuts_down(before_second),
        all_spare(before_takes, first.id),
        all_spare(between_takes, first.id),
    ensures
        ({
            let id = first.id;
            let filled = broker.serve(Request::Put(first)).run(before_second).serve(
                Request::Put(second),
            ).run(before_takes);
            let taken_once = filled.take(id).run(between_takes);
            &&& filled.to_host[id] == broker.to_host[id].push(first).push(second)
            &&& broker.to_host[id].len() == 0 ==> {
                &&& filled.oldest(id) == Some(first)
                &&& taken_once.oldest(id) == Some(second)
                &&& taken_once.take(id).oldest(id) is None
            }
        }),
{
    let id = first.id;
    let one = broker.serve(Request::Put(first));
    let waited = one.run(before_second);
    other_probes_do_not_interfere(one, before_second, id);
    session_goes_on(one, before_second);
    let two = waited.serve(Request::Put(second));
    let filled = two.run(before_takes);
    other_probes_do_not_interfere(two, before_takes, id);
    assert(filled.to_host[id] == broker.to_host[id].push(first).push(second));
    if broker.to_host[id].len() == 0 {
        let once = filled.take(id);
        assert(once.to_host[id] =~= seq![second]);
        let taken_once = once.run(between_takes);
        other_probes_do_not_interfere(once, between_takes, id);
        assert(taken_once.take(id).to_host[id] =~= Seq::<SimToHost>::empty());
    }
}

/// Whether an event leaves the messages for probe `id` of the simulator
/// alone: the host puts nothing for it, and the simulator does not ask for
/// it.
pub open spec fn spares_replies(event: Event, id: u32) -> bool {
    match event {
        Event::Wire(Request::Put(_)) => true,
        Event::Wire(Request::Get(other)) => other != id,
        Event::HostPut(other, _) => other != id,
        Event::HostTake(_) => true,
        Event::HostDrain(_) => true,
    }
}

/// Whether every event of a run leaves the messages for probe `id` alone.
pub open spec fn all_spare_replies(events: Seq<Event>, id: u32) -> bool {
    forall|i: int| 0 <= i < events.len() ==> spares_replies(#[trigger] events[i], id)
}

/// Events on other probes do not touch what is queued for a probe of the
/// simulator.
pub proof fn replies_of_other_probes_do_not_interfere(broker: Broker, events: Seq<Event>, id: u32)
    requires
        all_spare_replies(events, id),
    ensures
        broker.run(events).to_sim[id] == broker.to_sim[id],
    decreases events.len(),
{
    if events.len() > 0 {
        let next = broker.step(events[0]);
        assert(spares_replies(events[0], id));
        assert(next.to_sim[id] == broker.to_sim[id]);
        assert forall|i: int| 0 <= i < events.drop_first().len() implies spares_replies(
            #[trigger] events.drop_first()[i],
            id,
        ) by {
            assert(spares_replies(events[i + 1], id));
        }
        replies_of_other_probes_do_not_interfere(next, events.drop_first(), id);
    }
}

/// First in, first out, towards the simulator: two payloads that the host
/// puts for one probe are handed to the simulator in the order in which
/// they were put, whatever happens to other probes in between. If nothing
/// was queued for the probe before, the simulator's first `Get` is
/// answered with the first payload, its second with the second, and a
/// third finds nothing.
///
/// The session must be running when the simulator asks: no event before
/// the second `Get` shuts down.
pub proof fn reply_order(
    broker: Broker,
    id: u32,
    first: Seq<u8>,
    second: Seq<u8>,
    before_second: Seq<Event>,
    before_gets: Seq<Event>,
    between_gets: Seq<Event>,
)
    requires
        broker.running,
        broker.to_sim[id].len() == 0,
        all_spare_replies(before_second, id),
        all_spare_replies(before_gets, id),
        all_spare_replies(between_gets, id),
        none_shuts_down(before_second),
        none_shuts_down(before_gets),
        none_shuts_down(between_gets),
    ensures
        ({
            let filled = broker.host_put(id, first).run(before_second).host_put(id, second).run(
                before_gets,
            );
            let asked_once = filled.serve(Request::Get(id)).run(between_gets);
            &&& filled.reaction(Request::Get(id)) == ReactionModel::Reply(first)
            &&& asked_once.reaction(Request::Get(id)) == ReactionModel::Reply(second)
            &&& asked_once.serve(Request::Get(id)).reaction(Request::Get(id))
                == ReactionModel::Pending(id)
        }),
{
    let one = broker.host_put(id, first);
    let waited = one.run(before_second);
    replies_of_other_probes_do_not_interfere(one, before_second, id);
    session_goes_on(one, before_second);
    let two = waited.host_put(id, second);
    let filled = two.run(before_gets);
    replies_of_other_probes_do_not_interfere(two, before_gets, id);
    session_goes_on(two, before_gets);
    assert(filled.to_sim[id] =~= seq![
        HostToSim { id, payload: first },
        HostToSim { id, payload: second },
    ]);
    let once = filled.serve(Request::Get(id));
    assert(once.to_sim[id] =~= seq![HostToSim { id, payload: second }]);
    let asked_once = once.run(between_gets);
    replies_of_other_probes_do_not_interfere(once, between_gets, id);
    session_goes_on(once, between_gets);
    assert(asked_once.serve(Request::Get(id)).to_sim[id] =~= Seq::<
        HostToSim,
    >::empty());
}

/// Polling an idle probe: with nothing queued for a probe the host's take
/// finds nothing and changes nothing; after one `Put` for the probe, one
/// take gives that message and the next finds nothing again.
pub proof fn empty_polling(broker: Broker, message: SimToHost)
    requires
        broker.running,
        broker.to_host[message.id].len() == 0,
    ensures
        broker.oldest(message.id) is None,
        broker.take(message.id) == broker,
        broker.serve(Request::Put(message)).oldest(message.id) == Some(message),
        broker.serve(Request::Put(message)).take(message.id).oldest(message.id) is None,
{
    let id = message.id;
    let after = broker.serve(Request::Put(message));
    assert(after.to_host[id] =~= seq![message]);
    assert(after.take(id).to_host[id] =~= Seq::<SimToHost>::empty());
}

/// Once the session has ended, requests change nothing.
pub proof fn closed_broker_ignores(broker: Broker, requests: Seq<Request>)
    requires
        !broker.running,
    ensures
        broker.serve_all(requests) == broker,
        forall|i: int|
            0 <= i < requests.len() ==> broker.reaction(#[trigger] requests[i])
                == ReactionModel::Closed,
    decreases requests.len(),
{
    if requests.len() > 0 {
        closed_broker_ignores(broker, requests.drop_first());
    }
}

/// Shutdown: a `Put` with the shutdown id is queued like any other message
/// and ends the session, and no request that comes after it can be seen in
/// any queue.
pub proof fn nothing_after_shutdown(broker: Broker, last: SimToHost, later: Seq<Request>)
    requires
        broker.running,
        last.id == SHUT_DOWN_ID,
    ensures
        ({
            let closed = broker.serve(Request::Put(last));
            &&& broker.reaction(Request::Put(last)) == ReactionModel::ShutDown
            &&& !closed.running
            &&& closed.to_host[SHUT_DOWN_ID] == broker.to_host[SHUT_DOWN_ID].push(last)
            &&& closed.serve_all(later) == closed
        }),
{
    closed_broker_ignores(broker.serve(Request::Put(last)), later);
}

/// The cycle mark never falls, whatever happens.
pub proof fn cycle_never_falls(broker: Broker, events: Seq<Event>)
    ensures
        broker.run(events).cycle >= broker.cycle,
    decreases events.len(),
{
    if events.len() > 0 {
        cycle_never_falls(broker.step(events[0]), events.drop_first());
    }
}

} // verus!
