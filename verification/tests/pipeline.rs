use rb_link::pipeline::{find_earliest_among, sample_at, sample_pipeline};
use rb_link::inbox::Inbox;
use rb_link::{
    B2RMessage, B2RServer, GetPutMessage, PipeLineGetter, PipeLineState, ProbeType,
    ProtocolAssertionError, StallWatch,
};

fn put(server: &mut B2RServer, id: u32, cycles: u32, payload: &[u8]) {
    let _ = server.serve_request(GetPutMessage::Put(B2RMessage {
        id,
        cycles,
        message: payload.to_vec(),
    }));
}

fn getter(server: &B2RServer, fifos: &[u32], rules: &[u32]) -> PipeLineGetter {
    let mut getter = PipeLineGetter::new(server);
    for id in fifos {
        getter.add_fifo_probe(*id);
    }
    for id in rules {
        getter.add_rule_probe(*id);
    }
    getter
}

#[test]
fn pipeline_classification() {
    let mut server = B2RServer::new();
    let mut pipe = getter(&server, &[0, 1, 2, 3], &[10, 12, 14]);
    put(&mut server, 0, 0, &[1, 0]);
    put(&mut server, 1, 0, &[1, 1]);
    put(&mut server, 2, 0, &[1, 1]);
    put(&mut server, 3, 0, &[0, 1]);
    put(&mut server, 10, 0, &[1]);
    put(&mut server, 12, 0, &[1]);
    put(&mut server, 14, 0, &[1]);
    let state = pipe.get_pipeline_state(&mut server).unwrap().unwrap();
    assert_eq!(state.cycle, 0);
    assert_eq!(state.empty_fifos, vec![0]);
    assert_eq!(state.full_fifos, vec![3]);
    assert_eq!(state.fire_rules, vec![10, 12, 14]);
    // every report of the cycle was taken
    for id in [0, 1, 2, 3, 10, 12, 14] {
        assert!(server.try_get(id).is_none());
    }
}

#[test]
fn pipeline_with_roles_given_to_the_server() {
    let mut server = B2RServer::new();
    for id in 0..4 {
        server.give_type(ProbeType::Fifo, id);
    }
    for id in [10, 12, 14] {
        server.give_type(ProbeType::Fired, id);
    }
    put(&mut server, 0, 0, &[1, 0]);
    put(&mut server, 1, 0, &[1, 1]);
    put(&mut server, 2, 0, &[1, 1]);
    put(&mut server, 3, 0, &[0, 1]);
    put(&mut server, 10, 0, &[1]);
    put(&mut server, 12, 0, &[1]);
    put(&mut server, 14, 0, &[1]);
    let state = server.get_pipeline_state().unwrap().unwrap();
    assert_eq!(state.cycle, 0);
    assert_eq!(state.empty_fifos, vec![0]);
    assert_eq!(state.full_fifos, vec![3]);
    assert_eq!(state.fire_rules, vec![10, 12, 14]);
}

#[test]
fn pipeline_is_not_ready_without_fifo_reports() {
    let mut server = B2RServer::new();
    let mut pipe = getter(&server, &[0, 1], &[10]);
    assert!(matches!(pipe.get_pipeline_state(&mut server), Ok(None)));
    // a report of a rule probe alone does not make it ready, and stays
    put(&mut server, 10, 3, &[1]);
    put(&mut server, 5, 0, &[1, 1]);
    assert!(matches!(pipe.get_pipeline_state(&mut server), Ok(None)));
    assert_eq!(server.try_get(10).unwrap().cycles, 3);
    assert_eq!(server.try_get(5).unwrap().cycles, 0);
    // no probes at all
    let mut bare = getter(&server, &[], &[]);
    put(&mut server, 0, 0, &[1, 1]);
    assert!(matches!(bare.get_pipeline_state(&mut server), Ok(None)));
    let mut no_fifos = B2RServer::new();
    no_fifos.give_type(ProbeType::Fired, 1);
    assert!(matches!(no_fifos.get_pipeline_state(), Ok(None)));
}

#[test]
fn pipeline_samples_the_least_fifo_cycle() {
    let mut server = B2RServer::new();
    let mut pipe = getter(&server, &[0, 1], &[10, 11]);
    put(&mut server, 0, 7, &[0, 1]);
    put(&mut server, 1, 5, &[1, 0]);
    put(&mut server, 1, 7, &[0, 0]);
    put(&mut server, 10, 5, &[1]);
    put(&mut server, 11, 7, &[1]);
    // a probe without a role, at an earlier cycle, does not count
    put(&mut server, 99, 0, &[1, 1]);

    let state = pipe.get_pipeline_state(&mut server).unwrap().unwrap();
    assert_eq!(state.cycle, 5);
    assert!(state.full_fifos.is_empty());
    assert_eq!(state.empty_fifos, vec![1]);
    assert_eq!(state.fire_rules, vec![10]);

    let state = pipe.get_pipeline_state(&mut server).unwrap().unwrap();
    assert_eq!(state.cycle, 7);
    // first byte zero means full, whatever the second byte is
    assert_eq!(state.full_fifos, vec![0, 1]);
    assert!(state.empty_fifos.is_empty());
    assert_eq!(state.fire_rules, vec![11]);

    assert!(matches!(pipe.get_pipeline_state(&mut server), Ok(None)));
    assert_eq!(server.try_get(99).unwrap().cycles, 0);
}

#[test]
fn fifo_report_bytes_decide_full_and_empty() {
    let cases: [([u8; 2], bool, bool); 6] = [
        ([0, 0], true, false),
        ([0, 1], true, false),
        ([0, 255], true, false),
        ([1, 0], false, true),
        ([255, 0], false, true),
        ([1, 1], false, false),
    ];
    for (report, full, empty) in cases {
        let mut server = B2RServer::new();
        let mut pipe = getter(&server, &[6], &[]);
        put(&mut server, 6, 2, &report);
        let state = pipe.get_pipeline_state(&mut server).unwrap().unwrap();
        assert_eq!(state.cycle, 2);
        assert_eq!(state.full_fifos, if full { vec![6] } else { vec![] });
        assert_eq!(state.empty_fifos, if empty { vec![6] } else { vec![] });
        assert!(state.fire_rules.is_empty());
    }
}

#[test]
fn malformed_fifo_report_is_an_error() {
    for width in [0usize, 1, 3, 8] {
        let mut server = B2RServer::new();
        let mut pipe = getter(&server, &[0, 1], &[2]);
        put(&mut server, 0, 0, &[0, 1]);
        put(&mut server, 1, 0, &vec![0u8; width]);
        put(&mut server, 2, 0, &[1]);
        let error = pipe.get_pipeline_state(&mut server).unwrap_err();
        assert_eq!(error, ProtocolAssertionError { id: 1, expected: 2, found: width });
        // what was taken before the fault is gone, the rest stays queued
        assert!(server.try_get(0).is_none());
        assert_eq!(server.try_get(1).unwrap().message.len(), width);
        assert_eq!(server.try_get(2).unwrap().message, vec![1]);
    }
}

#[test]
fn malformed_rule_report_is_an_error() {
    for width in [0usize, 2, 5] {
        let mut server = B2RServer::new();
        let mut pipe = getter(&server, &[0], &[1, 2]);
        put(&mut server, 0, 4, &[1, 1]);
        put(&mut server, 1, 4, &vec![1u8; width]);
        put(&mut server, 2, 4, &[1]);
        let error = pipe.get_pipeline_state(&mut server).unwrap_err();
        assert_eq!(error, ProtocolAssertionError { id: 1, expected: 1, found: width });
        assert!(server.try_get(0).is_none());
        assert_eq!(server.try_get(1).unwrap().message.len(), width);
        assert_eq!(server.try_get(2).unwrap().message, vec![1]);
    }
}

#[test]
fn report_of_another_cycle_is_not_measured() {
    let mut server = B2RServer::new();
    let mut pipe = getter(&server, &[0, 1], &[2]);
    put(&mut server, 0, 0, &[1, 1]);
    // wrong widths, but not of the sampled cycle
    put(&mut server, 1, 1, &[1, 2, 3]);
    put(&mut server, 2, 1, &[1, 2]);
    let state = pipe.get_pipeline_state(&mut server).unwrap().unwrap();
    assert_eq!(state.cycle, 0);
    assert!(state.full_fifos.is_empty() && state.empty_fifos.is_empty());
    assert!(state.fire_rules.is_empty());
    let error = pipe.get_pipeline_state(&mut server).unwrap_err();
    assert_eq!(error, ProtocolAssertionError { id: 1, expected: 2, found: 3 });
}

#[test]
fn probe_listed_twice_is_visited_twice() {
    let mut server = B2RServer::new();
    let mut pipe = getter(&server, &[3, 3], &[]);
    put(&mut server, 3, 1, &[0, 1]);
    put(&mut server, 3, 1, &[1, 0]);
    put(&mut server, 3, 1, &[0, 0]);
    let state = pipe.get_pipeline_state(&mut server).unwrap().unwrap();
    assert_eq!(state.cycle, 1);
    assert_eq!(state.full_fifos, vec![3]);
    assert_eq!(state.empty_fifos, vec![3]);
    let left = server.get_id_all(3);
    assert_eq!(left.len(), 1);
    assert_eq!(left[0].message, vec![0, 0]);
}

#[test]
fn probe_in_both_roles_is_read_as_fifo_first() {
    let mut server = B2RServer::new();
    let mut pipe = getter(&server, &[3], &[3]);
    put(&mut server, 3, 1, &[0, 1]);
    put(&mut server, 3, 1, &[1]);
    let state = pipe.get_pipeline_state(&mut server).unwrap().unwrap();
    assert_eq!(state.full_fifos, vec![3]);
    assert_eq!(state.fire_rules, vec![3]);
    assert!(server.try_get(3).is_none());
}

#[test]
fn sampling_on_an_inbox() {
    let mut inbox = Inbox::new();
    inbox.push_back(B2RMessage { id: 1, cycles: 2, message: vec![0, 1] });
    inbox.push_back(B2RMessage { id: 2, cycles: 3, message: vec![1, 0] });
    inbox.push_back(B2RMessage { id: 7, cycles: 2, message: vec![5] });
    let fifos = vec![1, 2];
    let rules = vec![7];
    assert_eq!(find_earliest_among(&inbox, &fifos), Some(2));
    assert_eq!(find_earliest_among(&inbox, &rules), Some(2));
    assert_eq!(find_earliest_among(&inbox, &vec![2]), Some(3));
    assert_eq!(find_earliest_among(&inbox, &vec![4]), None);
    assert_eq!(find_earliest_among(&inbox, &vec![]), None);

    // a cycle that no fifo probe is at: rule reports of it are taken
    let state = sample_at(&mut inbox, &vec![2], &rules, 2).unwrap();
    assert_eq!(state.cycle, 2);
    assert!(state.full_fifos.is_empty() && state.empty_fifos.is_empty());
    assert_eq!(state.fire_rules, vec![7]);

    let state = sample_pipeline(&mut inbox, &fifos, &rules).unwrap().unwrap();
    assert_eq!(state.cycle, 2);
    assert_eq!(state.full_fifos, vec![1]);
    assert!(state.fire_rules.is_empty());
    let state = sample_pipeline(&mut inbox, &fifos, &rules).unwrap().unwrap();
    assert_eq!(state.cycle, 3);
    assert_eq!(state.empty_fifos, vec![2]);
    assert!(sample_pipeline(&mut inbox, &fifos, &rules).unwrap().is_none());
}

#[test]
fn stall_watch_tells_progress_from_a_stall() {
    let state = |full: &[u32], empty: &[u32], fired: &[u32]| PipeLineState {
        cycle: 0,
        full_fifos: full.to_vec(),
        empty_fifos: empty.to_vec(),
        fire_rules: fired.to_vec(),
    };
    let mut watch = StallWatch::new(3);
    // more rules fired than ever before: progress, whatever the fifos say
    assert!(!watch.observe(&state(&[0, 1], &[2], &[10])));
    assert!(!watch.observe(&state(&[0], &[1, 2], &[10, 11])));
    // no more rules than before, but a fifo is neither full nor empty
    assert!(!watch.observe(&state(&[0], &[2], &[10, 11])));
    assert!(!watch.observe(&state(&[], &[], &[])));
    // no more rules than before and every fifo full or empty: stuck
    assert!(watch.observe(&state(&[0], &[1, 2], &[10, 11])));
    assert!(watch.observe(&state(&[0, 1, 2], &[], &[])));
    assert!(watch.observe(&state(&[], &[0, 1, 2], &[10])));
    // more entries than fifos is no stall
    assert!(!watch.observe(&state(&[0, 1, 2], &[3], &[10])));
    // progress again
    assert!(!watch.observe(&state(&[0, 1, 2], &[], &[10, 11, 12])));
    let mut none = StallWatch::new(0);
    assert!(none.observe(&state(&[], &[], &[])));
    assert!(!none.observe(&state(&[], &[], &[1])));
    assert!(none.observe(&state(&[], &[], &[1])));
}
