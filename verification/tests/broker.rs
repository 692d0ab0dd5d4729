use rb_link::shim;
use rb_link::{
    receive_getput, B2RServer, CycleGetter, FramingError, IDGetter, PipeLineGetter, Reaction,
    SHUT_DOWN_ID,
};

fn u64_from_vec(bytes: Vec<u8>) -> u64 {
    u64::from_le_bytes([
        bytes[0], bytes[1], bytes[2], bytes[3], bytes[4], bytes[5], bytes[6], bytes[7],
    ])
}

/// Sends a put over the wire format: the shim's frame, read and served by
/// the server. Fails like a write to a closed connection once the session
/// has ended.
fn put(id: u32, cycles: u32, data: Vec<u8>, server: &mut B2RServer) {
    let frame = shim::put(id, cycles, data).expect("Serialization failed");
    let (request, used) = receive_getput(&frame).expect("Fail to deserialize the message");
    assert_eq!(used, frame.len());
    if let Reaction::Closed = server.serve_request(request) {
        panic!("Failed to write to stream");
    }
}

fn put_data_directly(data: Vec<u8>) -> Vec<u8> {
    let msg_size = data.len() as u32;
    let mut msg_with_size = Vec::with_capacity(4 + data.len());
    msg_with_size.extend_from_slice(msg_size.to_le_bytes().as_slice());
    msg_with_size.extend(data.iter());
    msg_with_size
}

#[test]
fn test_get() {
    let mut server = B2RServer::new_with("/tmp/test_get");
    let data: u64 = 114514;

    put(114, 514, data.to_le_bytes().to_vec(), &mut server);

    let mut id_getter = IDGetter::new(&server);

    let msg = id_getter.get(&mut server, 114);
    assert_eq!(msg.id, 114);
    assert_eq!(msg.cycles, 514);
    assert_eq!(msg.message.len(), 8);
    assert_eq!(u64_from_vec(msg.message), 114514);

    let data_vec: Vec<u8> = vec![0x00, 0x11, 0x5c, 0x33, 0x23];
    put(0, 0, data_vec, &mut server);

    let msg = id_getter.get(&mut server, 0);
    assert_eq!(msg.message[3], 0x33);
}

#[test]
fn test_try_get() {
    let mut server = B2RServer::new_with("/tmp/test_try_get");
    let data: u64 = 114514;
    put(114, 514, data.to_le_bytes().to_vec(), &mut server);

    let mut id_getter = IDGetter::new(&server);

    let msg = id_getter.try_get(&mut server, 114).unwrap();
    assert_eq!(msg.id, 114);
    assert_eq!(msg.cycles, 514);
    assert_eq!(msg.message.len(), 8);
    assert_eq!(u64_from_vec(msg.message), 114514);

    let msg = id_getter.try_get(&mut server, 114);
    assert!(msg.is_none());
}

#[test]
fn test_get_cycle() {
    let mut server = B2RServer::new_with("/tmp/test_get_cycle");
    let data: u64 = 114514;

    put(0, 0, data.to_le_bytes().to_vec(), &mut server);
    put(0, 1, data.to_le_bytes().to_vec(), &mut server);
    put(1, 1, data.to_le_bytes().to_vec(), &mut server);
    put(8, 0, data.to_le_bytes().to_vec(), &mut server);
    put(3, 0, data.to_le_bytes().to_vec(), &mut server);
    put(7, 0, data.to_le_bytes().to_vec(), &mut server);
    put(12, 1, data.to_le_bytes().to_vec(), &mut server);

    let mut cycle_getter = CycleGetter::new(&server);

    let msgs = cycle_getter.get_cycle_message(&mut server);
    assert_eq!(msgs.len(), 4);
}

#[test]
fn test_deserialize_fail() {
    let data: u64 = 114514;
    let frame = put_data_directly(data.to_le_bytes().to_vec());
    let result = receive_getput(&frame);
    assert!(result.is_err());
    assert!(matches!(result, Err(FramingError::Malformed)));

    let mut server = B2RServer::new_with("/tmp/test_deserialize_fail");
    let served = server.serve_frame(&frame[4..]);
    assert!(served.is_err());
}

#[test]
fn test_get_get_pipeline_state() {
    let mut server = B2RServer::new_with("/tmp/test_get_get_pipeline_state");
    let mut pipe_getter = PipeLineGetter::new(&server);

    for i in 0..4 {
        let id: u32 = i;
        pipe_getter.add_fifo_probe(id);
    }
    for i in 10..15 {
        let id: u32 = i;
        pipe_getter.add_rule_probe(id);
    }

    let full_msg = vec![0, 1];
    let empty_msg = vec![1, 0];
    let not_full_empty = vec![1, 1];

    put(0, 0, empty_msg.clone(), &mut server);
    put(1, 0, not_full_empty.clone(), &mut server);
    put(2, 0, not_full_empty.clone(), &mut server);
    put(3, 0, full_msg.clone(), &mut server);

    put(10, 0, vec![1], &mut server);
    put(12, 0, vec![1], &mut server);
    put(14, 0, vec![1], &mut server);

    let state = pipe_getter
        .get_pipeline_state(&mut server)
        .expect("a report has the wrong width")
        .expect("no fifo probe has reported");

    assert_eq!(state.cycle, 0);
    assert_eq!(state.empty_fifos.len(), 1);
    assert_eq!(state.full_fifos.len(), 1);
    assert_eq!(state.fire_rules.len(), 3);
    assert_eq!(state.empty_fifos[0], 0);
    assert_eq!(state.full_fifos[0], 3);
    assert!(state.fire_rules.contains(&10));
    assert!(state.fire_rules.contains(&12));
    assert!(state.fire_rules.contains(&14));
}

#[test]
#[should_panic]
fn test_probe_type_error() {
    let mut server = B2RServer::new_with("/tmp/test_probe_type_error");
    let mut pipe_getter = PipeLineGetter::new(&server);

    pipe_getter.add_fifo_probe(0);
    pipe_getter.add_rule_probe(1);

    put(0, 0, vec![0, 0, 0], &mut server);

    let _state = pipe_getter.get_pipeline_state(&mut server).unwrap();
}

#[test]
#[should_panic]
fn test_shut_down() {
    let mut server = B2RServer::new_with("/tmp/test_shut_down");
    let mut pipe_getter = PipeLineGetter::new(&server);

    pipe_getter.add_fifo_probe(0);
    pipe_getter.add_rule_probe(1);

    put(114, 514, vec![0], &mut server);
    let mut id_getter = IDGetter::new(&server);

    let msg = id_getter.get(&mut server, 114);
    assert_eq!(msg.id, 114);
    put(SHUT_DOWN_ID, 514, vec![0], &mut server);
    put(114, 514, vec![0], &mut server);
}
