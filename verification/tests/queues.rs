use rb_link::cycle::CycleTracker;
use rb_link::inbox::Inbox;
use rb_link::join::{find_earliest_cycle, take_earliest_cycle, take_fronts_at};
use rb_link::store::QueueStore;
use rb_link::{B2RMessage, R2BMessage};

fn message(id: u32, cycles: u32, payload: &[u8]) -> B2RMessage {
    B2RMessage { id, cycles, message: payload.to_vec() }
}

#[test]
fn store_keeps_each_queue_in_order() {
    let mut store: QueueStore<R2BMessage> = QueueStore::new();
    assert!(store.front(1).is_none());
    assert!(store.pop_front(1).is_none());
    store.push_back(1, R2BMessage { id: 1, message: vec![10] });
    store.push_back(2, R2BMessage { id: 2, message: vec![20] });
    store.push_back(1, R2BMessage { id: 1, message: vec![11] });
    assert_eq!(store.front(1).unwrap().message, vec![10]);
    assert_eq!(store.pop_front(1).unwrap().message, vec![10]);
    assert_eq!(store.pop_front(2).unwrap().message, vec![20]);
    assert_eq!(store.pop_front(1).unwrap().message, vec![11]);
    assert!(store.pop_front(1).is_none());
    assert!(store.pop_front(2).is_none());
}

#[test]
fn store_lists_each_used_id_once() {
    let mut store: QueueStore<R2BMessage> = QueueStore::new();
    assert!(store.ids().is_empty());
    for id in [5u32, 9, 5, 7, 9, 5] {
        store.push_back(id, R2BMessage { id, message: vec![] });
    }
    let mut ids = store.ids();
    ids.sort();
    assert_eq!(ids, vec![5, 7, 9]);
}

#[test]
fn store_drain_takes_the_whole_queue() {
    let mut store: QueueStore<R2BMessage> = QueueStore::new();
    assert!(store.drain(3).is_empty());
    for n in 0u8..5 {
        store.push_back(3, R2BMessage { id: 3, message: vec![n] });
    }
    store.push_back(4, R2BMessage { id: 4, message: vec![99] });
    let all = store.drain(3);
    let payloads: Vec<Vec<u8>> = all.into_iter().map(|m| m.message).collect();
    assert_eq!(payloads, vec![vec![0], vec![1], vec![2], vec![3], vec![4]]);
    assert!(store.pop_front(3).is_none());
    assert_eq!(store.pop_front(4).unwrap().message, vec![99]);
}

#[test]
fn inbox_gives_messages_back_with_their_id() {
    let mut inbox = Inbox::new();
    inbox.push_back(message(7, 3, &[1, 2]));
    inbox.push_back(message(8, 4, &[3]));
    inbox.push_back(message(7, 5, &[]));
    let front = inbox.front(7).unwrap();
    assert_eq!((front.cycles, front.message.clone()), (3, vec![1, 2]));
    let first = inbox.pop_front(7).unwrap();
    assert_eq!((first.id, first.cycles, first.message), (7, 3, vec![1, 2]));
    let rest = inbox.drain(7);
    assert_eq!(rest.len(), 1);
    assert_eq!((rest[0].id, rest[0].cycles), (7, 5));
    assert!(rest[0].message.is_empty());
    let other = inbox.pop_front(8).unwrap();
    assert_eq!((other.id, other.cycles, other.message), (8, 4, vec![3]));
    assert!(inbox.pop_front(8).is_none());
    assert!(inbox.front(9).is_none());
}

#[test]
fn earliest_cycle_is_the_least_front() {
    let mut inbox = Inbox::new();
    assert_eq!(find_earliest_cycle(&inbox), None);
    inbox.push_back(message(1, 9, &[]));
    assert_eq!(find_earliest_cycle(&inbox), Some(9));
    inbox.push_back(message(2, 4, &[]));
    inbox.push_back(message(2, 1, &[]));
    // only the oldest message of each queue counts
    assert_eq!(find_earliest_cycle(&inbox), Some(4));
    inbox.push_back(message(3, u32::MAX, &[]));
    assert_eq!(find_earliest_cycle(&inbox), Some(4));
    let _ = inbox.pop_front(2);
    assert_eq!(find_earliest_cycle(&inbox), Some(1));
    let _ = inbox.drain(2);
    let _ = inbox.drain(1);
    assert_eq!(find_earliest_cycle(&inbox), Some(u32::MAX));
    let _ = inbox.drain(3);
    assert_eq!(find_earliest_cycle(&inbox), None);
}

#[test]
fn join_of_nothing_is_empty() {
    let mut inbox = Inbox::new();
    assert!(take_earliest_cycle(&mut inbox).is_empty());
    inbox.push_back(message(1, 0, &[]));
    let _ = inbox.pop_front(1);
    assert!(take_earliest_cycle(&mut inbox).is_empty());
}

#[test]
fn join_takes_one_message_from_each_queue_at_the_cycle() {
    let mut inbox = Inbox::new();
    inbox.push_back(message(1, 5, &[1]));
    inbox.push_back(message(1, 5, &[2]));
    inbox.push_back(message(2, 5, &[3]));
    inbox.push_back(message(3, 6, &[4]));
    let mut taken = take_earliest_cycle(&mut inbox);
    taken.sort_by_key(|m| m.id);
    assert_eq!(taken.len(), 2);
    assert_eq!((taken[0].id, taken[0].message.clone()), (1, vec![1]));
    assert_eq!((taken[1].id, taken[1].message.clone()), (2, vec![3]));
    // the second message of probe 1 is still of the earliest cycle
    let again = take_earliest_cycle(&mut inbox);
    assert_eq!(again.len(), 1);
    assert_eq!((again[0].id, again[0].cycles, again[0].message.clone()), (1, 5, vec![2]));
    let last = take_earliest_cycle(&mut inbox);
    assert_eq!(last.len(), 1);
    assert_eq!((last[0].id, last[0].cycles), (3, 6));
    assert!(take_earliest_cycle(&mut inbox).is_empty());
}

#[test]
fn join_at_the_highest_cycle() {
    let mut inbox = Inbox::new();
    inbox.push_back(message(1, u32::MAX, &[1]));
    inbox.push_back(message(2, u32::MAX, &[2]));
    assert_eq!(take_earliest_cycle(&mut inbox).len(), 2);
}

#[test]
fn fronts_at_a_cycle_that_no_queue_is_at() {
    let mut inbox = Inbox::new();
    inbox.push_back(message(1, 5, &[1]));
    assert!(take_fronts_at(&mut inbox, 4).is_empty());
    assert_eq!(inbox.front(1).unwrap().cycles, 5);
    assert_eq!(take_fronts_at(&mut inbox, 5).len(), 1);
    assert!(inbox.front(1).is_none());
}

#[test]
fn cycle_mark_only_rises() {
    let mut tracker = CycleTracker::new();
    assert_eq!(tracker.current(), 0);
    tracker.observe(5);
    assert_eq!(tracker.current(), 5);
    tracker.observe(3);
    assert_eq!(tracker.current(), 5);
    tracker.observe(5);
    assert_eq!(tracker.current(), 5);
    tracker.observe(u32::MAX);
    assert_eq!(tracker.current(), u32::MAX);
    tracker.observe(0);
    assert_eq!(tracker.current(), u32::MAX);
}
