//! A store of first-in-first-out queues, one for each probe id.
//!
//! A queue comes into being when its id is first pushed to. Whether an id
//! has an empty queue or none cannot be told from outside: the store's model
//! gives every id a queue, empty unless something was pushed.

use std::collections::HashMap;
use std::collections::VecDeque;
use vstd::prelude::*;
use vstd::std_specs::iter::IteratorSpec;

verus! {

/// The models of a sequence of items, in order.
pub open spec fn views<T: View>(items: Seq<T>) -> Seq<T::V> {
    items.map_values(|item: T| item@)
}

/// Queues of items, by probe id.
pub struct QueueStore<T: View> {
    queues: HashMap<u32, VecDeque<T>>,
}

impl<T: View> QueueStore<T> {
    /// The queue of `id`, oldest item first.
    pub closed spec fn queue(&self, id: u32) -> Seq<T::V> {
        if self.queues@.contains_key(id) {
            views(self.queues@[id]@)
        } else {
            Seq::empty()
        }
    }
}

impl<T: View> View for QueueStore<T> {
    type V = Map<u32, Seq<T::V>>;

    /// Every id's queue.
    open spec fn view(&self) -> Map<u32, Seq<T::V>> {
        Map::new(|id: u32| true, |id: u32| self.queue(id))
    }
}

impl<T: View> QueueStore<T> {
    /// A store in which every queue is empty.
    pub fn new() -> (store: QueueStore<T>)
        ensures
            forall|id: u32| store@[id] == Seq::<T::V>::empty(),
    {
        QueueStore { queues: HashMap::new() }
    }

    /// The ids that may have something queued, each once, in no particular
    /// order. An id that is not among them has an empty queue.
    pub fn ids(&self) -> (ids: Vec<u32>)
        ensures
            ids@.no_duplicates(),
            forall|id: u32| self@[id].len() > 0 ==> ids@.contains(id),
    {
        let mut ids: Vec<u32> = Vec::new();
        for key in iter: self.queues.keys()
            invariant
                ids@.len() == iter.index(),
                forall|i: int| 0 <= i < ids@.len() ==> ids@[i] == *iter.seq()[i],
        {
            ids.push(*key);
        }
        proof {
            let keys = self.queues.keys().remaining().unref();
            assert(ids@ =~= keys);
            assert forall|id: u32| self@[id].len() > 0 implies ids@.contains(id) by {
                assert(self.queues@.dom().contains(id));
                assert(keys.to_set().contains(id));
            }
        }
        ids
    }

    /// The oldest item queued for `id`, if there is one. The item stays in
    /// its queue.
    pub fn front(&self, id: u32) -> (oldest: Option<&T>)
        ensures
            match oldest {
                Some(item) => self@[id].len() > 0 && item@ == self@[id][0],
                None => self@[id].len() == 0,
            },
    {
        match self.queues.get(&id) {
            None => None,
            Some(queue) => {
                if queue.len() > 0 {
                    Some(&queue[0])
                } else {
                    None
                }
            },
        }
    }

    /// Puts `item` at the end of the queue of `id`.
    pub fn push_back(&mut self, id: u32, item: T)
        ensures
            final(self)@ == old(self)@.insert(id, old(self)@[id].push(item@)),
    {
        let mut queue = match self.queues.remove(&id) {
            Some(queue) => queue,
            None => VecDeque::new(),
        };
        let ghost before = queue@;
        queue.push_back(item);
        self.queues.insert(id, queue);
        proof {
            assert(views(before.push(item)) =~= views(before).push(item@));
            assert(views(before) =~= old(self)@[id]);
            assert(self@ =~= old(self)@.insert(id, old(self)@[id].push(item@)));
        }
    }

    /// Takes the oldest item from the queue of `id`, if there is one.
    pub fn pop_front(&mut self, id: u32) -> (oldest: Option<T>)
        ensures
            match oldest {
                Some(item) => {
                    &&& old(self)@[id].len() > 0
                    &&& item@ == old(self)@[id][0]
                    &&& final(self)@ == old(self)@.insert(id, old(self)@[id].drop_first())
                },
                None => old(self)@[id].len() == 0 && final(self)@ == old(self)@,
            },
    {
        match self.queues.remove(&id) {
            None => {
                proof {
                    assert(self@ =~= old(self)@);
                }
                None
            },
            Some(mut queue) => {
                let ghost before = queue@;
                let oldest = queue.pop_front();
                self.queues.insert(id, queue);
                proof {
                    if before.len() > 0 {
                        assert(views(before.subrange(1, before.len() as int)) =~= views(
                            before,
                        ).drop_first());
                        assert(self@ =~= old(self)@.insert(
                            id,
                            old(self)@[id].drop_first(),
                        ));
                    } else {
                        assert(self@ =~= old(self)@);
                    }
                }
                oldest
            },
        }
    }

    /// Takes everything queued for `id`, oldest item first.
    pub fn drain(&mut self, id: u32) -> (items: Vec<T>)
        ensures
            views(items@) == old(self)@[id],
            final(self)@ == old(self)@.insert(id, Seq::empty()),
    {
        let mut items: Vec<T> = Vec::new();
        match self.queues.remove(&id) {
            None => {
                proof {
                    assert(views(items@) =~= old(self)@[id]);
                    assert(self@ =~= old(self)@.insert(id, Seq::empty()));
                }
            },
            Some(mut queue) => {
                let ghost whole = queue@;
                while queue.len() > 0
                    invariant
                        items@ + queue@ == whole,
                    decreases queue@.len(),
                {
                    match queue.pop_front() {
                        Some(item) => {
                            items.push(item);
                            assert(items@ + queue@ =~= whole);
                        },
                        None => {},
                    }
                }
                self.queues.insert(id, queue);
                proof {
                    assert(items@ =~= whole);
                    assert(views(queue@) =~= Seq::<T::V>::empty());
                    assert(self@ =~= old(self)@.insert(id, Seq::empty()));
                }
            },
        }
        items
    }
}

} // verus!
