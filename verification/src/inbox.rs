//! The messages of the simulator that the host has not taken yet.
//!
//! A message is filed under the id of the probe that sent it. The id is
//! kept once, as the key of the probe's queue, so a message that comes out
//! of a queue always carries the id of that queue.

use crate::message::{B2RMessage, SimToHost};
use crate::store::{views, QueueStore};
use vstd::prelude::*;

verus! {

/// Model of a queued message: its cycle and payload, without the id.
pub struct Stamp {
    pub cycle: u32,
    pub payload: Seq<u8>,
}

/// A queued message: its cycle and payload, without the id.
pub struct Stamped {
    pub cycles: u32,
    pub message: Vec<u8>,
}

impl View for Stamped {
    type V = Stamp;

    open spec fn view(&self) -> Stamp {
        Stamp { cycle: self.cycles, payload: self.message@ }
    }
}

/// The message of probe `id` that a queued entry stands for.
pub open spec fn filed(id: u32, stamp: Stamp) -> SimToHost {
    SimToHost { id, cycle: stamp.cycle, payload: stamp.payload }
}

/// The messages of probe `id` that its queue stands for.
pub open spec fn filed_under(id: u32, stamps: Seq<Stamp>) -> Seq<SimToHost> {
    stamps.map_values(|stamp: Stamp| filed(id, stamp))
}

/// Whether every queued message is filed under the id it carries.
pub open spec fn keyed(queues: Map<u32, Seq<SimToHost>>) -> bool {
    forall|id: u32, i: int| 0 <= i < queues[id].len() ==> (#[trigger] queues[id][i]).id == id
}

/// The simulator's messages, by probe id, oldest first.
pub struct Inbox {
    store: QueueStore<Stamped>,
}

impl Inbox {
    /// The messages of probe `id`, oldest first.
    pub closed spec fn queue(&self, id: u32) -> Seq<SimToHost> {
        filed_under(id, self.store@[id])
    }
}

impl View for Inbox {
    type V = Map<u32, Seq<SimToHost>>;

    /// Every probe's queue; a probe that has sent nothing has an empty one.
    open spec fn view(&self) -> Map<u32, Seq<SimToHost>> {
        Map::new(|id: u32| true, |id: u32| self.queue(id))
    }
}

impl Inbox {
    /// Every message in the inbox is filed under the id it carries.
    pub proof fn keyedness(&self)
        ensures
            keyed(self@),
    {
    }

    /// An inbox with nothing in it.
    pub fn new() -> (inbox: Inbox)
        ensures
            inbox@ == Map::new(|id: u32| true, |id: u32| Seq::<SimToHost>::empty()),
    {
        let inbox = Inbox { store: QueueStore::new() };
        proof {
            assert forall|id: u32| inbox.queue(id) == Seq::<SimToHost>::empty() by {
                assert(filed_under(id, Seq::<Stamp>::empty()) =~= Seq::<SimToHost>::empty());
            }
            assert(inbox@ =~= Map::new(|id: u32| true, |id: u32| Seq::<SimToHost>::empty()));
        }
        inbox
    }

    /// The probes that may have something queued, each once, in no
    /// particular order. A probe that is not among them has nothing queued.
    pub fn ids(&self) -> (ids: Vec<u32>)
        ensures
            ids@.no_duplicates(),
            forall|id: u32| self@[id].len() > 0 ==> ids@.contains(id),
    {
        self.store.ids()
    }

    /// The oldest message queued for probe `id`, without its id, if there
    /// is one. The message stays queued.
    pub fn front(&self, id: u32) -> (oldest: Option<&Stamped>)
        ensures
            match oldest {
                Some(entry) => self@[id].len() > 0 && self@[id][0] == filed(id, entry@),
                None => self@[id].len() == 0,
            },
    {
        self.store.front(id)
    }

    /// Puts a message at the end of the queue of its probe.
    pub fn push_back(&mut self, message: B2RMessage)
        ensures
            final(self)@ == old(self)@.insert(
                message.id,
                old(self)@[message.id].push(message@),
            ),
    {
        let id: u32 = message.id;
        let entry = Stamped { cycles: message.cycles, message: message.message };
        let ghost before = self.store@[id];
        self.store.push_back(id, entry);
        proof {
            assert(filed_under(id, before.push(entry@)) =~= filed_under(id, before).push(
                message@,
            ));
            assert(self@ =~= old(self)@.insert(id, old(self)@[id].push(message@)));
        }
    }

    /// Takes the oldest message of probe `id`, if there is one.
    pub fn pop_front(&mut self, id: u32) -> (oldest: Option<B2RMessage>)
        ensures
            match oldest {
                Some(message) => {
                    &&& old(self)@[id].len() > 0
                    &&& message@ == old(self)@[id][0]
                    &&& final(self)@ == old(self)@.insert(id, old(self)@[id].drop_first())
                },
                None => old(self)@[id].len() == 0 && final(self)@ == old(self)@,
            },
    {
        let ghost before = self.store@[id];
        match self.store.pop_front(id) {
            Some(entry) => {
                proof {
                    assert(filed_under(id, before.drop_first()) =~= filed_under(
                        id,
                        before,
                    ).drop_first());
                    assert(self@ =~= old(self)@.insert(id, old(self)@[id].drop_first()));
                }
                Some(B2RMessage { id, cycles: entry.cycles, message: entry.message })
            },
            None => {
                proof {
                    assert(self@ =~= old(self)@);
                }
                None
            },
        }
    }

    /// Takes every message of probe `id`, oldest first.
    pub fn drain(&mut self, id: u32) -> (messages: Vec<B2RMessage>)
        ensures
            views(messages@) == old(self)@[id],
            final(self)@ == old(self)@.insert(id, Seq::empty()),
    {
        let ghost before = self.store@[id];
        let mut entries = self.store.drain(id);
        let mut messages: Vec<B2RMessage> = Vec::new();
        let ghost all = entries@;
        while entries.len() > 0
            invariant
                views(all) == before,
                messages@.len() + entries@.len() == all.len(),
                forall|k: int|
                    0 <= k < messages@.len() ==> (#[trigger] messages@[k])@ == filed(id, all[k]@),
                forall|k: int|
                    0 <= k < entries@.len() ==> (#[trigger] entries@[k]) == all[all.len()
                        - entries@.len() + k],
            decreases entries@.len(),
        {
            let entry = entries.remove(0);
            messages.push(B2RMessage { id, cycles: entry.cycles, message: entry.message });
        }
        proof {
            assert(views(messages@) =~= filed_under(id, before));
            assert(filed_under(id, Seq::<Stamp>::empty()) =~= Seq::<SimToHost>::empty());
            assert(self@ =~= old(self)@.insert(id, Seq::empty()));
        }
        messages
    }
}

} // verus!
