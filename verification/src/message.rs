//! The messages that travel between the simulator and the host, and their
//! mathematical models.

use vstd::prelude::*;

verus! {

/// The integer type of a frame's length prefix.
pub type MsgSizeType = u32;

/// The width of a frame's length prefix in bytes.
pub const MSG_SIZE_BYTES: usize = 4;

/// The probe id that ends a session when a `Put` carries it.
pub const SHUT_DOWN_ID: u32 = 0xFFFF_FFFF;

/// Model of a message from the simulator: which probe sent it, at which
/// simulated clock tick, and the bytes it carried.
pub struct SimToHost {
    pub id: u32,
    pub cycle: u32,
    pub payload: Seq<u8>,
}

/// Model of a message for the simulator: the probe it is meant for and the
/// bytes to deliver. It carries no clock tick.
pub struct HostToSim {
    pub id: u32,
    pub payload: Seq<u8>,
}

/// Model of a request on the wire.
pub enum Request {
    Get(u32),
    Put(SimToHost),
}

/// Message from the simulator.
///
/// - `id`: the probe that sent the message
/// - `cycles`: the clock cycle in which it was sent
/// - `message`: the payload, one byte for each started eight bits of the
///   probe's put width
#[derive(Debug)]
pub struct B2RMessage {
    pub id: u32,
    pub cycles: u32,
    pub message: Vec<u8>,
}

/// Message for the simulator.
///
/// - `id`: the probe that will be handed the message
/// - `message`: the payload, one byte for each started eight bits of the
///   probe's get width
#[derive(Debug)]
pub struct R2BMessage {
    pub id: u32,
    pub message: Vec<u8>,
}

/// A request of the simulator: hand me the next message for a probe, or
/// take this message from a probe.
#[derive(Debug)]
pub enum GetPutMessage {
    Get(u32),
    Put(B2RMessage),
}

impl View for B2RMessage {
    type V = SimToHost;

    open spec fn view(&self) -> SimToHost {
        SimToHost { id: self.id, cycle: self.cycles, payload: self.message@ }
    }
}

impl View for R2BMessage {
    type V = HostToSim;

    open spec fn view(&self) -> HostToSim {
        HostToSim { id: self.id, payload: self.message@ }
    }
}

impl View for GetPutMessage {
    type V = Request;

    open spec fn view(&self) -> Request {
        match self {
            GetPutMessage::Get(id) => Request::Get(*id),
            GetPutMessage::Put(message) => Request::Put(message@),
        }
    }
}

/// A fresh copy of a byte vector.
pub fn copy_bytes(bytes: &Vec<u8>) -> (copy: Vec<u8>)
    ensures
        copy@ == bytes@,
{
    let mut copy: Vec<u8> = Vec::with_capacity(bytes.len());
    let mut i: usize = 0;
    while i < bytes.len()
        invariant
            i <= bytes.len(),
            copy@ == bytes@.subrange(0, i as int),
        decreases bytes.len() - i,
    {
        copy.push(bytes[i]);
        assert(bytes@.subrange(0, i + 1) == bytes@.subrange(0, i as int).push(bytes@[i as int]));
        i += 1;
    }
    assert(bytes@.subrange(0, bytes@.len() as int) == bytes@);
    copy
}

impl B2RMessage {
    /// A message with the same id, cycle and payload.
    pub fn duplicate(&self) -> (copy: B2RMessage)
        ensures
            copy@ == self@,
    {
        B2RMessage { id: self.id, cycles: self.cycles, message: copy_bytes(&self.message) }
    }
}

impl Clone for B2RMessage {
    fn clone(&self) -> (copy: B2RMessage)
        ensures
            copy@ == self@,
    {
        self.duplicate()
    }
}

} // verus!
