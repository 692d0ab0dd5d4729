use rb_link::publisher::{forward, select, IDLE_LIMIT_SECS};
use rb_link::{
    B2RMessage, B2RPublisher, B2RServer, GetPutMessage, R2BMessage, Reaction, Subscriber, Turn,
    SHUT_DOWN_ID,
};
use std::cell::RefCell;
use std::rc::Rc;

/// Records what it is called with and answers each message with its
/// payload, byte by byte plus one, for the probe `reply_to`.
struct Echo {
    ids: Vec<u32>,
    reply_to: u32,
    seen: Rc<RefCell<Vec<Vec<(u32, u32, Vec<u8>)>>>>,
}

impl Subscriber for Echo {
    fn update(&mut self, messages: Vec<B2RMessage>) -> Vec<R2BMessage> {
        let replies = messages
            .iter()
            .map(|m| R2BMessage {
                id: self.reply_to,
                message: m.message.iter().map(|b| b.wrapping_add(1)).collect(),
            })
            .collect();
        self.seen
            .borrow_mut()
            .push(messages.into_iter().map(|m| (m.id, m.cycles, m.message)).collect());
        replies
    }

    fn subscribed_ids(&self) -> Vec<u32> {
        self.ids.clone()
    }
}

fn put(publisher: &mut B2RPublisher<Echo>, id: u32, cycles: u32, payload: &[u8]) -> Reaction {
    publisher.serve_request(GetPutMessage::Put(B2RMessage {
        id,
        cycles,
        message: payload.to_vec(),
    }))
}

fn reply(publisher: &mut B2RPublisher<Echo>, id: u32) -> Option<Vec<u8>> {
    match publisher.serve_request(GetPutMessage::Get(id)) {
        Reaction::Reply(bytes) => Some(bytes),
        Reaction::Pending(asked) => {
            assert_eq!(asked, id);
            None
        }
        other => panic!("unexpected reaction {:?}", other),
    }
}

fn message(id: u32, cycles: u32, payload: &[u8]) -> B2RMessage {
    B2RMessage { id, cycles, message: payload.to_vec() }
}

#[test]
fn select_keeps_the_subscribed_probes_in_order() {
    let messages = vec![
        message(1, 0, &[1]),
        message(2, 0, &[2]),
        message(3, 0, &[3]),
        message(1, 1, &[4]),
        message(4, 1, &[5]),
    ];
    let chosen = select(&messages, &vec![3, 1]);
    let seen: Vec<(u32, u32, Vec<u8>)> =
        chosen.into_iter().map(|m| (m.id, m.cycles, m.message)).collect();
    assert_eq!(seen, vec![(1, 0, vec![1]), (3, 0, vec![3]), (1, 1, vec![4])]);
    assert!(select(&messages, &vec![]).is_empty());
    assert!(select(&messages, &vec![9]).is_empty());
    assert!(select(&vec![], &vec![1]).is_empty());
    assert_eq!(select(&messages, &vec![1, 2, 3, 4, 4]).len(), 5);
    // the messages themselves are left as they were
    assert_eq!(messages.len(), 5);
}

#[test]
fn forward_queues_replies_in_order() {
    let mut server = B2RServer::new();
    server.put(1, vec![0]);
    forward(
        &mut server,
        vec![
            R2BMessage { id: 1, message: vec![1] },
            R2BMessage { id: 2, message: vec![2] },
            R2BMessage { id: 1, message: vec![3] },
        ],
    );
    forward(&mut server, vec![]);
    for expected in [vec![0u8], vec![1], vec![3]] {
        match server.serve_request(GetPutMessage::Get(1)) {
            Reaction::Reply(bytes) => assert_eq!(bytes, expected),
            other => panic!("expected a reply, got {:?}", other),
        }
    }
    assert!(matches!(server.serve_request(GetPutMessage::Get(1)), Reaction::Pending(1)));
    assert!(matches!(server.serve_request(GetPutMessage::Get(2)), Reaction::Reply(_)));
}

#[test]
fn publisher_starts_empty() {
    let mut publisher: B2RPublisher<Echo> = B2RPublisher::new_with("/tmp/publisher");
    assert_eq!(publisher.server().socket_path(), "/tmp/publisher");
    assert!(publisher.server().running());
    assert_eq!(publisher.server().current_cycle(), 0);
    // nothing has come in and no time has passed: the batch is not complete
    assert_eq!(publisher.serve(0), Turn::Gathered);
    assert!(!publisher.gather(0));
    // idle for the limit: the empty batch is dispatched
    assert_eq!(IDLE_LIMIT_SECS, 1);
    assert!(publisher.gather(1));
    assert_eq!(publisher.serve(1), Turn::Dispatched);
    assert_eq!(publisher.serve(u64::MAX), Turn::Dispatched);
}

#[test]
fn subscribers_get_the_messages_of_their_probes_once_per_batch() {
    let seen_a = Rc::new(RefCell::new(Vec::new()));
    let seen_b = Rc::new(RefCell::new(Vec::new()));
    let mut publisher: B2RPublisher<Echo> = B2RPublisher::new_with("/tmp/publisher");
    publisher.add_subscriber(Echo { ids: vec![1, 2], reply_to: 20, seen: seen_a.clone() });
    publisher.add_subscriber(Echo { ids: vec![2, 3], reply_to: 30, seen: seen_b.clone() });

    // everything of cycle 0: the cycle mark has not moved yet
    put(&mut publisher, 1, 0, &[10]);
    put(&mut publisher, 2, 0, &[20]);
    put(&mut publisher, 3, 0, &[30]);
    put(&mut publisher, 4, 0, &[40]);
    assert_eq!(publisher.serve(0), Turn::Gathered);
    assert!(seen_a.borrow().is_empty());
    assert!(publisher.server().running());
    // the join took them out of the server
    assert_eq!(publisher.serve(0), Turn::Gathered);

    // the first message of cycle 1 completes the batch
    put(&mut publisher, 1, 1, &[11]);
    assert_eq!(publisher.server().current_cycle(), 1);
    assert_eq!(publisher.serve(0), Turn::Dispatched);

    let mut a = seen_a.borrow()[0].clone();
    a.sort();
    assert_eq!(a, vec![(1, 0, vec![10]), (2, 0, vec![20])]);
    let mut b = seen_b.borrow()[0].clone();
    b.sort();
    assert_eq!(b, vec![(2, 0, vec![20]), (3, 0, vec![30])]);
    assert_eq!(seen_a.borrow().len(), 1);
    assert_eq!(seen_b.borrow().len(), 1);

    // what the subscribers returned is queued for the simulator
    let mut replies_a = vec![reply(&mut publisher, 20).unwrap(), reply(&mut publisher, 20).unwrap()];
    replies_a.sort();
    assert_eq!(replies_a, vec![vec![11], vec![21]]);
    assert!(reply(&mut publisher, 20).is_none());
    let mut replies_b = vec![reply(&mut publisher, 30).unwrap(), reply(&mut publisher, 30).unwrap()];
    replies_b.sort();
    assert_eq!(replies_b, vec![vec![21], vec![31]]);

    // the message of cycle 1 was not part of the batch: it is gathered next
    assert_eq!(publisher.serve(0), Turn::Gathered);
    assert_eq!(publisher.serve(1), Turn::Dispatched);
    assert_eq!(seen_a.borrow()[1], vec![(1, 1, vec![11])]);
    assert!(seen_b.borrow()[1].is_empty());
    // the batch is empty after a dispatch
    assert_eq!(publisher.serve(1), Turn::Dispatched);
    assert!(seen_a.borrow()[2].is_empty());
}

#[test]
fn dispatch_hands_out_the_batch_and_clears_it() {
    let seen = Rc::new(RefCell::new(Vec::new()));
    let mut publisher: B2RPublisher<Echo> = B2RPublisher::new_with("/tmp/publisher");
    publisher.add_subscriber(Echo { ids: vec![5], reply_to: 6, seen: seen.clone() });
    put(&mut publisher, 5, 0, &[1]);
    put(&mut publisher, 5, 0, &[2]);
    assert!(!publisher.gather(0));
    assert!(!publisher.gather(0));
    assert!(!publisher.gather(0));
    assert!(publisher.dispatch());
    assert_eq!(seen.borrow()[0], vec![(5, 0, vec![1]), (5, 0, vec![2])]);
    assert!(publisher.dispatch());
    assert!(seen.borrow()[1].is_empty());
    assert_eq!(reply(&mut publisher, 6), Some(vec![2]));
    assert_eq!(reply(&mut publisher, 6), Some(vec![3]));
    assert_eq!(reply(&mut publisher, 6), None);
}

#[test]
fn publisher_finishes_after_shutdown() {
    let seen = Rc::new(RefCell::new(Vec::new()));
    let mut publisher: B2RPublisher<Echo> = B2RPublisher::new_with("/tmp/publisher");
    publisher.add_subscriber(Echo { ids: vec![1], reply_to: 2, seen: seen.clone() });
    put(&mut publisher, 1, 0, &[7]);
    assert_eq!(publisher.serve(0), Turn::Gathered);
    assert!(matches!(put(&mut publisher, SHUT_DOWN_ID, 3, &[]), Reaction::ShutDown));
    assert!(matches!(put(&mut publisher, 1, 4, &[8]), Reaction::Closed));
    assert_eq!(publisher.serve(0), Turn::Finished);
    assert_eq!(seen.borrow()[0], vec![(1, 0, vec![7])]);
    assert!(!publisher.server().running());
    assert_eq!(publisher.server().current_cycle(), 3);
}
