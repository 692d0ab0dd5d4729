//! The simulator's side of the wire: the frames that the boundary shim
//! sends for the simulator's get and put events and at the end of a run.
//!
//! The shim writes the returned bytes to the connection as they are. After
//! the frame of a `Get` it reads the reply, which has no frame: as many raw
//! bytes as the probe's get width takes.

use crate::message::{B2RMessage, GetPutMessage, Request, SimToHost, SHUT_DOWN_ID};
use crate::wire::{encode_frame, frame_bytes, request_bytes};
use vstd::prelude::*;

verus! {

/// The cycle that a simulation may not reach: its counter would wrap.
pub const CYCLE_LIMIT: u32 = 0xFFFF_FFFF;

/// Why the shim has no frame to send.
#[derive(Clone, Copy, Debug, PartialEq, Eq, Structural)]
pub enum ShimError {
    /// The simulation has reached the last cycle that its counter can hold.
    CycleOverflow,
    /// The payload is too long for a frame.
    Oversize,
}

/// The request of a put event.
pub open spec fn put_request(id: u32, cycles: u32, data: Seq<u8>) -> Request {
    Request::Put(SimToHost { id, cycle: cycles, payload: data })
}

/// The request that ends a session: a `Put` with the shutdown id, cycle
/// zero and no payload.
pub open spec fn shut_down_request() -> Request {
    put_request(SHUT_DOWN_ID, 0, Seq::empty())
}

/// The frame for a get event of probe `id` in cycle `cycles`.
///
/// Fails with `CycleOverflow` exactly when `cycles` is the cycle limit.
pub fn get(id: u32, cycles: u32) -> (result: Result<Vec<u8>, ShimError>)
    ensures
        match result {
            Ok(frame) => cycles != CYCLE_LIMIT && frame@ == frame_bytes(Request::Get(id)),
            Err(error) => cycles == CYCLE_LIMIT && error == ShimError::CycleOverflow,
        },
{
    if cycles == CYCLE_LIMIT {
        return Err(ShimError::CycleOverflow);
    }
    Ok(encode_frame(&GetPutMessage::Get(id)).unwrap())
}

/// The frame for a put event of probe `id` in cycle `cycles` with the
/// payload `data`.
///
/// Fails with `CycleOverflow` exactly when `cycles` is the cycle limit, and
/// otherwise with `Oversize` exactly when the encoded request has more
/// bytes than a frame's length prefix can count.
pub fn put(id: u32, cycles: u32, data: Vec<u8>) -> (result: Result<Vec<u8>, ShimError>)
    ensures
        match result {
            Ok(frame) => {
                &&& cycles != CYCLE_LIMIT
                &&& request_bytes(put_request(id, cycles, data@)).len() <= u32::MAX
                &&& frame@ == frame_bytes(put_request(id, cycles, data@))
            },
            Err(ShimError::CycleOverflow) => cycles == CYCLE_LIMIT,
            Err(ShimError::Oversize) => cycles != CYCLE_LIMIT && request_bytes(
                put_request(id, cycles, data@),
            ).len() > u32::MAX,
        },
{
    if cycles == CYCLE_LIMIT {
        return Err(ShimError::CycleOverflow);
    }
    let request = GetPutMessage::Put(B2RMessage { id, cycles, message: data });
    match encode_frame(&request) {
        Ok(frame) => Ok(frame),
        Err(_) => Err(ShimError::Oversize),
    }
}

/// The frame that ends a session.
pub fn shut_down() -> (frame: Vec<u8>)
    ensures
        frame@ == frame_bytes(shut_down_request()),
{
    let request = GetPutMessage::Put(
        B2RMessage { id: SHUT_DOWN_ID, cycles: 0, message: Vec::new() },
    );
    encode_frame(&request).unwrap()
}

} // verus!
