//! The cycle join: everything the simulator emitted during the earliest
//! cycle that has not been drained yet.
//!
//! The queues are looked at by their oldest messages only. The earliest
//! cycle is the least cycle among them, and the join takes the oldest
//! message of every queue whose oldest message is of that cycle.

use crate::inbox::{keyed, Inbox};
use crate::message::{B2RMessage, SimToHost};
use crate::store::views;
use vstd::prelude::*;

verus! {

/// Whether the oldest message queued for `id` is of cycle `cycle`.
pub open spec fn at_cycle(queues: Map<u32, Seq<SimToHost>>, id: u32, cycle: u32) -> bool {
    queues[id].len() > 0 && queues[id][0].cycle == cycle
}

/// Whether `cycle` is the least cycle among the oldest messages of all
/// queues.
pub open spec fn is_earliest(queues: Map<u32, Seq<SimToHost>>, cycle: u32) -> bool {
    &&& exists|id: u32| at_cycle(queues, id, cycle)
    &&& forall|id: u32| queues[id].len() > 0 ==> (#[trigger] queues[id])[0].cycle >= cycle
}

/// The least cycle among the oldest messages of all queues, or `None` if
/// every queue is empty.
pub open spec fn earliest_cycle(queues: Map<u32, Seq<SimToHost>>) -> Option<u32> {
    if exists|cycle: u32| is_earliest(queues, cycle) {
        Some(choose|cycle: u32| is_earliest(queues, cycle))
    } else {
        None
    }
}

/// The queues after the oldest message was taken from each queue whose
/// oldest message is of cycle `cycle`.
pub open spec fn without_fronts(queues: Map<u32, Seq<SimToHost>>, cycle: u32) -> Map<
    u32,
    Seq<SimToHost>,
> {
    Map::new(
        |id: u32| true,
        |id: u32|
            if at_cycle(queues, id, cycle) {
                queues[id].drop_first()
            } else {
                queues[id]
            },
    )
}

/// Whether `taken` is the join of `queues` at `cycle`: the oldest message of
/// each queue whose oldest message is of that cycle, each once, in any
/// order.
pub open spec fn is_join(queues: Map<u32, Seq<SimToHost>>, cycle: u32, taken: Seq<SimToHost>) -> bool {
    &&& forall|i: int|
        0 <= i < taken.len() ==> at_cycle(queues, (#[trigger] taken[i]).id, cycle) && taken[i]
            == queues[taken[i].id][0]
    &&& forall|i: int, j: int|
        0 <= i < j < taken.len() ==> (#[trigger] taken[i]).id != (#[trigger] taken[j]).id
    &&& forall|id: u32|
        at_cycle(queues, id, cycle) ==> exists|i: int|
            0 <= i < taken.len() && (#[trigger] taken[i]).id == id
}

/// There is at most one earliest cycle.
pub proof fn earliest_is_unique(queues: Map<u32, Seq<SimToHost>>, first: u32, second: u32)
    requires
        is_earliest(queues, first),
        is_earliest(queues, second),
    ensures
        first == second,
{
    let a = choose|id: u32| at_cycle(queues, id, first);
    let b = choose|id: u32| at_cycle(queues, id, second);
    assert(queues[a][0].cycle >= second);
    assert(queues[b][0].cycle >= first);
}

/// A cycle that is the least among the oldest messages is the earliest
/// cycle.
pub proof fn earliest_found(queues: Map<u32, Seq<SimToHost>>, cycle: u32)
    requires
        is_earliest(queues, cycle),
    ensures
        earliest_cycle(queues) == Some(cycle),
{
    let chosen = choose|cycle: u32| is_earliest(queues, cycle);
    earliest_is_unique(queues, cycle, chosen);
}

/// With every queue empty there is no earliest cycle.
pub proof fn earliest_of_nothing(queues: Map<u32, Seq<SimToHost>>)
    requires
        forall|id: u32| (#[trigger] queues[id]).len() == 0,
    ensures
        earliest_cycle(queues) is None,
{
    assert forall|cycle: u32| !is_earliest(queues, cycle) by {
        if is_earliest(queues, cycle) {
            let id = choose|id: u32| at_cycle(queues, id, cycle);
            assert(queues[id].len() == 0);
        }
    }
}

/// The least cycle among the oldest messages of the queues of `store`.
pub fn find_earliest_cycle(store: &Inbox) -> (earliest: Option<u32>)
    ensures
        earliest == earliest_cycle(store@),
{
    let ids = store.ids();
    let mut earliest: Option<u32> = None;
    let ghost mut holder: u32 = 0;
    let mut i: usize = 0;
    while i < ids.len()
        invariant
            i <= ids.len(),
            forall|id: u32| store@[id].len() > 0 ==> ids@.contains(id),
            earliest matches Some(cycle) ==> at_cycle(store@, holder, cycle),
            forall|k: int|
                0 <= k < i && store@[#[trigger] ids@[k]].len() > 0 ==> earliest is Some
                    && store@[ids@[k]][0].cycle >= earliest->Some_0,
        decreases ids.len() - i,
    {
        let id: u32 = ids[i];
        match store.front(id) {
            None => {},
            Some(message) => {
                let lower: bool = match earliest {
                    None => true,
                    Some(cycle) => message.cycles < cycle,
                };
                if lower {
                    earliest = Some(message.cycles);
                    proof {
                        holder = id;
                    }
                }
            },
        }
        i += 1;
    }
    proof {
        match earliest {
            None => {
                assert forall|id: u32| (#[trigger] store@[id]).len() == 0 by {
                    if store@[id].len() > 0 {
                        assert(ids@.contains(id));
                        let k = ids@.index_of(id);
                        assert(store@[ids@[k]].len() > 0);
                    }
                }
                earliest_of_nothing(store@);
            },
            Some(cycle) => {
                assert forall|id: u32| store@[id].len() > 0 implies (#[trigger] store@[id])[0].cycle
                    >= cycle by {
                    assert(ids@.contains(id));
                    let k = ids@.index_of(id);
                    assert(store@[ids@[k]].len() > 0);
                }
                earliest_found(store@, cycle);
            },
        }
    }
    earliest
}

/// Takes the oldest message from each queue whose oldest message is of
/// cycle `cycle`.
pub fn take_fronts_at(store: &mut Inbox, cycle: u32) -> (taken: Vec<B2RMessage>)
    ensures
        final(store)@ == without_fronts(old(store)@, cycle),
        is_join(old(store)@, cycle, views(taken@)),
{
    let ghost initial = store@;
    proof {
        store.keyedness();
    }
    let ids = store.ids();
    let mut taken: Vec<B2RMessage> = Vec::new();
    let mut i: usize = 0;
    while i < ids.len()
        invariant
            i <= ids.len(),
            ids@.no_duplicates(),
            keyed(initial),
            forall|id: u32| initial[id].len() > 0 ==> ids@.contains(id),
            forall|id: u32|
                #[trigger] store@[id] == if ids@.subrange(0, i as int).contains(id) && at_cycle(
                    initial,
                    id,
                    cycle,
                ) {
                    initial[id].drop_first()
                } else {
                    initial[id]
                },
            forall|k: int|
                0 <= k < taken@.len() ==> {
                    &&& at_cycle(initial, (#[trigger] taken@[k]).id, cycle)
                    &&& taken@[k]@ == initial[taken@[k].id][0]
                    &&& ids@.subrange(0, i as int).contains(taken@[k].id)
                },
            forall|k: int, l: int|
                0 <= k < l < taken@.len() ==> (#[trigger] taken@[k]).id != (#[trigger] taken@[l]).id,
            forall|j: int|
                0 <= j < i && at_cycle(initial, #[trigger] ids@[j], cycle) ==> exists|k: int|
                    0 <= k < taken@.len() && (#[trigger] taken@[k]).id == ids@[j],
        decreases ids.len() - i,
    {
        let id: u32 = ids[i];
        let ghost seen = ids@.subrange(0, i as int);
        let ghost held = taken@;
        proof {
            if seen.contains(id) {
                let j = seen.index_of(id);
                assert(ids@[j] == id && ids@[i as int] == id);
            }
            assert(store@[id] == initial[id]);
        }
        let due: bool = match store.front(id) {
            Some(message) => message.cycles == cycle,
            None => false,
        };
        if due {
            match store.pop_front(id) {
                Some(message) => {
                    taken.push(message);
                    proof {
                        assert(taken@[held.len() as int].id == id);
                    }
                },
                None => {},
            }
        }
        proof {
            let next = ids@.subrange(0, i + 1);
            assert(next =~= seen.push(id));
            assert forall|other: u32| next.contains(other) <==> (seen.contains(other) || other
                == id) by {
                if seen.contains(other) {
                    let j = seen.index_of(other);
                    assert(next[j] == other);
                }
                if other == id {
                    assert(next[i as int] == id);
                }
            }
            assert forall|j: int|
                0 <= j < i + 1 && at_cycle(initial, #[trigger] ids@[j], cycle) implies exists|
                k: int,
            |
                0 <= k < taken@.len() && (#[trigger] taken@[k]).id == ids@[j] by {
                if j < i {
                    let k = choose|k: int|
                        0 <= k < held.len() && (#[trigger] held[k]).id == ids@[j];
                    assert(taken@[k].id == ids@[j]);
                } else {
                    assert(taken@[held.len() as int].id == id);
                }
            }
        }
        i += 1;
    }
    proof {
        assert(ids@.subrange(0, i as int) =~= ids@);
        assert(store@ =~= without_fronts(initial, cycle));
        let models = views(taken@);
        assert forall|id: u32| at_cycle(initial, id, cycle) implies exists|k: int|
            0 <= k < models.len() && (#[trigger] models[k]).id == id by {
            assert(ids@.contains(id));
            let j = ids@.index_of(id);
            assert(at_cycle(initial, ids@[j], cycle));
            let k = choose|k: int| 0 <= k < taken@.len() && (#[trigger] taken@[k]).id == ids@[j];
            assert(models[k].id == id);
        }
    }
    taken
}

/// Takes everything the simulator emitted during the earliest cycle that
/// is still queued: the oldest message of every queue whose oldest message
/// is of the least cycle among them. With every queue empty, nothing is
/// taken.
pub fn take_earliest_cycle(store: &mut Inbox) -> (taken: Vec<B2RMessage>)
    ensures
        match earliest_cycle(old(store)@) {
            None => taken@.len() == 0 && final(store)@ == old(store)@,
            Some(cycle) => {
                &&& final(store)@ == without_fronts(old(store)@, cycle)
                &&& is_join(old(store)@, cycle, views(taken@))
            },
        },
{
    match find_earliest_cycle(store) {
        None => Vec::new(),
        Some(cycle) => take_fronts_at(store, cycle),
    }
}

} // verus!
