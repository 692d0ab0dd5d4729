//! Records of the named-pipe transport: one message of a probe as a run of
//! bytes, the id and the cycle as 32-bit little-endian numbers and then the
//! payload.

use crate::message::{B2RMessage, SimToHost};
use crate::wire::{u32_from_le, word_at};
use vstd::prelude::*;
use vstd::slice::slice_subrange;

verus! {

/// The bytes before the payload of a record: the id and the cycle.
pub const RECORD_HEADER_BYTES: usize = 8;

/// The message that a record holds.
pub open spec fn record_message(record: Seq<u8>) -> SimToHost
    recommends
        record.len() >= RECORD_HEADER_BYTES,
{
    SimToHost {
        id: u32_from_le(record, 0),
        cycle: u32_from_le(record, 4),
        payload: record.subrange(RECORD_HEADER_BYTES as int, record.len() as int),
    }
}

/// The length of the record of a probe whose messages are `width` bits
/// wide: the header and one byte for each full eight bits.
pub fn record_len(width: u32) -> (len: usize)
    ensures
        len == RECORD_HEADER_BYTES + width / 8,
{
    RECORD_HEADER_BYTES + (width / 8) as usize
}

/// Reads a record. Gives `None` exactly when the bytes are fewer than a
/// record's header.
pub fn decode_record(record: &[u8]) -> (message: Option<B2RMessage>)
    ensures
        match message {
            Some(message) => record@.len() >= RECORD_HEADER_BYTES && message@ == record_message(
                record@,
            ),
            None => record@.len() < RECORD_HEADER_BYTES,
        },
{
    if record.len() < RECORD_HEADER_BYTES {
        return None;
    }
    let id: u32 = word_at(record, 0);
    let cycles: u32 = word_at(record, 4);
    let rest = slice_subrange(record, RECORD_HEADER_BYTES, record.len());
    let mut message: Vec<u8> = Vec::new();
    let mut i: usize = 0;
    while i < rest.len()
        invariant
            i <= rest.len(),
            message@ == rest@.subrange(0, i as int),
        decreases rest.len() - i,
    {
        message.push(rest[i]);
        assert(rest@.subrange(0, i + 1) == rest@.subrange(0, i as int).push(rest@[i as int]));
        i += 1;
    }
    assert(rest@.subrange(0, rest@.len() as int) == rest@);
    Some(B2RMessage { id, cycles, message })
}

} // verus!
