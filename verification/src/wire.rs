//! The wire format: a request is a tagged union in a fixed-width
//! little-endian encoding, and it travels behind a four-byte little-endian
//! count of its bytes. A reply to `Get` is the raw payload with no frame.
//!
//! The encoding of the union is bincode's, in its fixed-width configuration.
//! bincode writes a tuple field by field and adds nothing of its own, so the
//! requests are handed to it as plain tuples that start with the variant's
//! index: the bytes are those of an enum with the variants `Get(u32)` and
//! `Put { id, cycles, message }`, in this order.

use crate::message::{B2RMessage, GetPutMessage, Request, SimToHost, MSG_SIZE_BYTES};
use vstd::prelude::*;
use vstd::slice::slice_subrange;

verus! {

/// The variant index of `Get`.
pub const GET_TAG: u32 = 0;

/// The variant index of `Put`.
pub const PUT_TAG: u32 = 1;

/// The bytes before the payload of an encoded `Put`: three 32-bit words and
/// the 64-bit payload length.
pub const PUT_HEADER_BYTES: usize = 20;

/// The bytes of an encoded `Get`: two 32-bit words.
pub const GET_BYTES: usize = 8;

/// Why a frame could not be produced or understood.
#[derive(Clone, Copy, Debug, PartialEq, Eq, Structural)]
pub enum FramingError {
    /// The stream ended before the length prefix or the announced body was
    /// complete.
    Truncated,
    /// The body is not the encoding of a request.
    Malformed,
    /// The encoded request is too long for the length prefix.
    Oversize,
}

/// The four bytes of a 32-bit number, least significant first.
pub open spec fn u32_le_bytes(x: u32) -> Seq<u8> {
    seq![
        (x % 0x100) as u8,
        (x / 0x100 % 0x100) as u8,
        (x / 0x1_0000 % 0x100) as u8,
        (x / 0x100_0000 % 0x100) as u8,
    ]
}

/// The eight bytes of a 64-bit number, least significant first.
pub open spec fn u64_le_bytes(x: u64) -> Seq<u8> {
    seq![
        (x % 0x100) as u8,
        (x / 0x100 % 0x100) as u8,
        (x / 0x1_0000 % 0x100) as u8,
        (x / 0x100_0000 % 0x100) as u8,
        (x / 0x1_0000_0000 % 0x100) as u8,
        (x / 0x100_0000_0000 % 0x100) as u8,
        (x / 0x1_0000_0000_0000 % 0x100) as u8,
        (x / 0x100_0000_0000_0000 % 0x100) as u8,
    ]
}

/// The number that the four bytes of `bytes` from `at` on spell, least
/// significant first.
pub open spec fn u32_from_le(bytes: Seq<u8>, at: int) -> u32
    recommends
        0 <= at,
        at + 4 <= bytes.len(),
{
    (bytes[at] + bytes[at + 1] * 0x100 + bytes[at + 2] * 0x1_0000 + bytes[at + 3] * 0x100_0000) as u32
}

/// The number that the eight bytes of `bytes` from `at` on spell, least
/// significant first.
pub open spec fn u64_from_le(bytes: Seq<u8>, at: int) -> u64
    recommends
        0 <= at,
        at + 8 <= bytes.len(),
{
    (bytes[at] + bytes[at + 1] * 0x100 + bytes[at + 2] * 0x1_0000 + bytes[at + 3] * 0x100_0000
        + bytes[at + 4] * 0x1_0000_0000 + bytes[at + 5] * 0x100_0000_0000 + bytes[at + 6]
        * 0x1_0000_0000_0000 + bytes[at + 7] * 0x100_0000_0000_0000) as u64
}

/// Reading back the bytes of a 32-bit number gives the number, wherever in a
/// sequence the bytes stand.
pub proof fn lemma_u32_le_round_trip(x: u32, before: Seq<u8>, after: Seq<u8>)
    ensures
        u32_le_bytes(x).len() == 4,
        u32_from_le(before + u32_le_bytes(x) + after, before.len() as int) == x,
{
    let all = before + u32_le_bytes(x) + after;
    let at = before.len() as int;
    assert(all[at] == u32_le_bytes(x)[0]);
    assert(all[at + 1] == u32_le_bytes(x)[1]);
    assert(all[at + 2] == u32_le_bytes(x)[2]);
    assert(all[at + 3] == u32_le_bytes(x)[3]);
}

/// A 64-bit number is the sum of its eight base-256 digits, each at its place.
proof fn lemma_u64_digits(x: u64)
    ensures
        x == (x % 0x100) + (x / 0x100 % 0x100) * 0x100 + (x / 0x1_0000 % 0x100) * 0x1_0000 + (x
            / 0x100_0000 % 0x100) * 0x100_0000 + (x / 0x1_0000_0000 % 0x100) * 0x1_0000_0000 + (x
            / 0x100_0000_0000 % 0x100) * 0x100_0000_0000 + (x / 0x1_0000_0000_0000 % 0x100)
            * 0x1_0000_0000_0000 + (x / 0x100_0000_0000_0000 % 0x100) * 0x100_0000_0000_0000,
{
    let q1: int = (x / 0x100) as int;
    let q2: int = (x / 0x1_0000) as int;
    let q3: int = (x / 0x100_0000) as int;
    let q4: int = (x / 0x1_0000_0000) as int;
    let q5: int = (x / 0x100_0000_0000) as int;
    let q6: int = (x / 0x1_0000_0000_0000) as int;
    let q7: int = (x / 0x100_0000_0000_0000) as int;
    assert(q2 == q1 / 0x100);
    assert(q3 == q2 / 0x100);
    assert(q4 == q3 / 0x100);
    assert(q5 == q4 / 0x100);
    assert(q6 == q5 / 0x100);
    assert(q7 == q6 / 0x100);
    assert(q7 < 0x100);
    assert(x == x % 0x100 + q1 * 0x100);
    assert(q1 == q1 % 0x100 + q2 * 0x100);
    assert(q2 == q2 % 0x100 + q3 * 0x100);
    assert(q3 == q3 % 0x100 + q4 * 0x100);
    assert(q4 == q4 % 0x100 + q5 * 0x100);
    assert(q5 == q5 % 0x100 + q6 * 0x100);
    assert(q6 == q6 % 0x100 + q7 * 0x100);
}

/// Reading back the bytes of a 64-bit number gives the number, wherever in a
/// sequence the bytes stand.
pub proof fn lemma_u64_le_round_trip(x: u64, before: Seq<u8>, after: Seq<u8>)
    ensures
        u64_le_bytes(x).len() == 8,
        u64_from_le(before + u64_le_bytes(x) + after, before.len() as int) == x,
{
    let digits = u64_le_bytes(x);
    let all = before + digits + after;
    let at = before.len() as int;
    assert(all[at] == digits[0]);
    assert(all[at + 1] == digits[1]);
    assert(all[at + 2] == digits[2]);
    assert(all[at + 3] == digits[3]);
    assert(all[at + 4] == digits[4]);
    assert(all[at + 5] == digits[5]);
    assert(all[at + 6] == digits[6]);
    assert(all[at + 7] == digits[7]);
    lemma_u64_digits(x);
}

/// The number that the four bytes from `at` on spell, least significant
/// first.
pub fn word_at(bytes: &[u8], at: usize) -> (word: u32)
    requires
        at + 4 <= bytes@.len(),
    ensures
        word == u32_from_le(bytes@, at as int),
{
    let b0: u32 = bytes[at] as u32;
    let b1: u32 = bytes[at + 1] as u32;
    let b2: u32 = bytes[at + 2] as u32;
    let b3: u32 = bytes[at + 3] as u32;
    b0 + b1 * 0x100 + b2 * 0x1_0000 + b3 * 0x100_0000
}

/// The number that the first four bytes spell, least significant first: the
/// size that a frame's length prefix announces.
pub fn get_msg_size(bytes: Vec<u8>) -> (size: u32)
    requires
        bytes@.len() >= MSG_SIZE_BYTES,
    ensures
        size == u32_from_le(bytes@, 0),
{
    word_at(bytes.as_slice(), 0)
}

/// bincode's error type, carried through and never looked into.
#[verifier::external_type_specification]
#[verifier::external_body]
pub struct ExBincodeErrorKind(bincode::ErrorKind);

/// The bytes of a request: the variant's index and the fields in order, each
/// 32-bit word as four bytes, the payload behind its length as eight bytes.
pub open spec fn request_bytes(request: Request) -> Seq<u8> {
    match request {
        Request::Get(id) => u32_le_bytes(GET_TAG) + u32_le_bytes(id),
        Request::Put(message) => u32_le_bytes(PUT_TAG) + u32_le_bytes(message.id) + u32_le_bytes(
            message.cycle,
        ) + u64_le_bytes(message.payload.len() as u64) + message.payload,
    }
}

/// Whether `bytes` begin with a complete `Put`: the header, and as many
/// payload bytes as the header announces.
pub open spec fn holds_put(bytes: Seq<u8>) -> bool {
    &&& bytes.len() >= PUT_HEADER_BYTES
    &&& PUT_HEADER_BYTES + u64_from_le(bytes, 12) <= bytes.len()
}

/// The request that `bytes` begin with, if they begin with one. Bytes behind
/// the request are ignored.
pub open spec fn parse_request(bytes: Seq<u8>) -> Option<Request> {
    if bytes.len() < GET_BYTES {
        None
    } else if u32_from_le(bytes, 0) == GET_TAG {
        Some(Request::Get(u32_from_le(bytes, 4)))
    } else if u32_from_le(bytes, 0) == PUT_TAG && holds_put(bytes) {
        Some(
            Request::Put(
                SimToHost {
                    id: u32_from_le(bytes, 4),
                    cycle: u32_from_le(bytes, 8),
                    payload: bytes.subrange(
                        PUT_HEADER_BYTES as int,
                        PUT_HEADER_BYTES + u64_from_le(bytes, 12),
                    ),
                },
            ),
        )
    } else {
        None
    }
}

/// The frame of a request: the count of its bytes as a 32-bit number, then
/// the bytes.
pub open spec fn frame_bytes(request: Request) -> Seq<u8> {
    u32_le_bytes(request_bytes(request).len() as u32) + request_bytes(request)
}

/// What reading one frame from the start of `stream` gives: the request and
/// the number of bytes the frame took, or the reason why there is none.
pub open spec fn parse_frame(stream: Seq<u8>) -> Result<(Request, int), FramingError> {
    if stream.len() < MSG_SIZE_BYTES {
        Err(FramingError::Truncated)
    } else {
        let size = u32_from_le(stream, 0) as int;
        if stream.len() - MSG_SIZE_BYTES < size {
            Err(FramingError::Truncated)
        } else {
            match parse_request(stream.subrange(MSG_SIZE_BYTES as int, MSG_SIZE_BYTES + size)) {
                Some(request) => Ok((request, MSG_SIZE_BYTES + size)),
                None => Err(FramingError::Malformed),
            }
        }
    }
}

/// Calls `bincode::serialize` on a pair of 32-bit words.
///
/// Claimed of bincode: with its fixed-width little-endian configuration and
/// no size limit, a tuple of two `u32` always serialises, to the four bytes
/// of the first followed by the four bytes of the second.
#[verifier::external_body]
fn serialize_words(first: u32, second: u32) -> (out: Result<Vec<u8>, Box<bincode::ErrorKind>>)
    ensures
        out is Ok,
        out->Ok_0@ == u32_le_bytes(first) + u32_le_bytes(second),
{
    bincode::serialize(&(first, second))
}

/// Calls `bincode::serialize` on three 32-bit words and a byte vector.
///
/// Claimed of bincode: the tuple always serialises, to the four bytes of
/// each word in order, the vector's length as eight bytes, and the vector's
/// bytes.
#[verifier::external_body]
fn serialize_record(tag: u32, id: u32, cycles: u32, payload: &Vec<u8>) -> (out: Result<
    Vec<u8>,
    Box<bincode::ErrorKind>,
>)
    ensures
        out is Ok,
        out->Ok_0@ == u32_le_bytes(tag) + u32_le_bytes(id) + u32_le_bytes(cycles) + u64_le_bytes(
            payload@.len() as u64,
        ) + payload@,
{
    bincode::serialize(&(tag, id, cycles, payload))
}

/// Calls `bincode::deserialize` for a pair of 32-bit words.
///
/// Claimed of bincode: it succeeds exactly when there are at least eight
/// bytes, reads the two words from the first eight, least significant byte
/// first, and ignores what follows.
#[verifier::external_body]
fn deserialize_words(bytes: &[u8]) -> (out: Result<(u32, u32), Box<bincode::ErrorKind>>)
    ensures
        out is Ok <==> bytes@.len() >= GET_BYTES,
        out matches Ok(words) ==> words.0 == u32_from_le(bytes@, 0) && words.1 == u32_from_le(
            bytes@,
            4,
        ),
{
    bincode::deserialize::<(u32, u32)>(bytes)
}

/// Calls `bincode::deserialize` for three 32-bit words and a byte vector.
///
/// Claimed of bincode: it reads the three words from the first twelve
/// bytes, the vector's length from the next eight, and then that many bytes;
/// it succeeds exactly when the bytes reach that far, and ignores what
/// follows.
#[verifier::external_body]
fn deserialize_record(bytes: &[u8]) -> (out: Result<
    (u32, u32, u32, Vec<u8>),
    Box<bincode::ErrorKind>,
>)
    ensures
        out is Ok <==> holds_put(bytes@),
        out matches Ok(record) ==> {
            &&& record.0 == u32_from_le(bytes@, 0)
            &&& record.1 == u32_from_le(bytes@, 4)
            &&& record.2 == u32_from_le(bytes@, 8)
            &&& record.3@ == bytes@.subrange(
                PUT_HEADER_BYTES as int,
                PUT_HEADER_BYTES + u64_from_le(bytes@, 12),
            )
        },
{
    bincode::deserialize::<(u32, u32, u32, Vec<u8>)>(bytes)
}

/// Encodes a request, without a frame.
pub fn encode_request(request: &GetPutMessage) -> (bytes: Vec<u8>)
    ensures
        bytes@ == request_bytes(request@),
{
    match request {
        GetPutMessage::Get(id) => serialize_words(GET_TAG, *id).unwrap(),
        GetPutMessage::Put(message) => serialize_record(
            PUT_TAG,
            message.id,
            message.cycles,
            &message.message,
        ).unwrap(),
    }
}

/// Decodes the request that `bytes` begin with.
///
/// Fails with `Malformed` exactly when the bytes do not begin with a
/// request: fewer than eight bytes, an unknown variant index, or a `Put`
/// that ends before its announced payload does.
pub fn decode_request(bytes: &[u8]) -> (result: Result<GetPutMessage, FramingError>)
    ensures
        match result {
            Ok(request) => parse_request(bytes@) == Some(request@),
            Err(error) => parse_request(bytes@) is None && error == FramingError::Malformed,
        },
{
    match deserialize_words(bytes) {
        Err(_) => Err(FramingError::Malformed),
        Ok(words) => {
            if words.0 == GET_TAG {
                Ok(GetPutMessage::Get(words.1))
            } else if words.0 == PUT_TAG {
                match deserialize_record(bytes) {
                    Err(_) => Err(FramingError::Malformed),
                    Ok(record) => Ok(
                        GetPutMessage::Put(
                            B2RMessage { id: record.1, cycles: record.2, message: record.3 },
                        ),
                    ),
                }
            } else {
                Err(FramingError::Malformed)
            }
        },
    }
}

/// Encodes a request and puts the length prefix before it.
///
/// Fails with `Oversize` exactly when the encoded request has more bytes
/// than a 32-bit number can count.
pub fn encode_frame(request: &GetPutMessage) -> (result: Result<Vec<u8>, FramingError>)
    ensures
        match result {
            Ok(frame) => request_bytes(request@).len() <= u32::MAX && frame@ == frame_bytes(
                request@,
            ),
            Err(error) => request_bytes(request@).len() > u32::MAX && error
                == FramingError::Oversize,
        },
{
    let mut body = encode_request(request);
    if body.len() > 0xFFFF_FFFF {
        return Err(FramingError::Oversize);
    }
    let size: u32 = body.len() as u32;
    let mut frame: Vec<u8> = Vec::new();
    frame.push((size % 0x100) as u8);
    frame.push((size / 0x100 % 0x100) as u8);
    frame.push((size / 0x1_0000 % 0x100) as u8);
    frame.push((size / 0x100_0000 % 0x100) as u8);
    assert(frame@ == u32_le_bytes(size));
    frame.append(&mut body);
    Ok(frame)
}

/// Reads one frame from the start of `stream`: the four bytes of the length
/// prefix, then exactly as many bytes as they announce, decoded as a
/// request. Returns the request and the number of bytes the frame took.
///
/// Fails with `Truncated` when the stream ends before the prefix or the
/// announced body is complete, and with `Malformed` when the body is not a
/// request.
pub fn receive_getput(stream: &[u8]) -> (result: Result<(GetPutMessage, usize), FramingError>)
    ensures
        match result {
            Ok((request, used)) => parse_frame(stream@) == Ok::<(Request, int), FramingError>(
                (request@, used as int),
            ),
            Err(error) => parse_frame(stream@) == Err::<(Request, int), FramingError>(error),
        },
{
    if stream.len() < MSG_SIZE_BYTES {
        return Err(FramingError::Truncated);
    }
    let size: u32 = word_at(stream, 0);
    if ((stream.len() - MSG_SIZE_BYTES) as u64) < size as u64 {
        return Err(FramingError::Truncated);
    }
    let end: usize = MSG_SIZE_BYTES + size as usize;
    match decode_request(slice_subrange(stream, MSG_SIZE_BYTES, end)) {
        Ok(request) => Ok((request, end)),
        Err(error) => Err(error),
    }
}

/// Decoding an encoded request gives the request back, whatever bytes
/// follow it.
pub proof fn request_round_trip(request: Request, rest: Seq<u8>)
    requires
        request matches Request::Put(message) ==> message.payload.len() <= u64::MAX,
    ensures
        parse_request(request_bytes(request) + rest) == Some(request),
{
    let bytes = request_bytes(request) + rest;
    match request {
        Request::Get(id) => {
            lemma_u32_le_round_trip(GET_TAG, Seq::empty(), u32_le_bytes(id) + rest);
            assert(bytes =~= Seq::empty() + u32_le_bytes(GET_TAG) + (u32_le_bytes(id) + rest));
            lemma_u32_le_round_trip(id, u32_le_bytes(GET_TAG), rest);
            assert(bytes =~= u32_le_bytes(GET_TAG) + u32_le_bytes(id) + rest);
        },
        Request::Put(message) => {
            let tag = u32_le_bytes(PUT_TAG);
            let id = u32_le_bytes(message.id);
            let cycle = u32_le_bytes(message.cycle);
            let length = u64_le_bytes(message.payload.len() as u64);
            lemma_u32_le_round_trip(PUT_TAG, Seq::empty(), id + cycle + length + message.payload + rest);
            assert(bytes =~= Seq::empty() + tag + (id + cycle + length + message.payload + rest));
            lemma_u32_le_round_trip(message.id, tag, cycle + length + message.payload + rest);
            assert(bytes =~= tag + id + (cycle + length + message.payload + rest));
            lemma_u32_le_round_trip(message.cycle, tag + id, length + message.payload + rest);
            assert(bytes =~= (tag + id) + cycle + (length + message.payload + rest));
            lemma_u64_le_round_trip(
                message.payload.len() as u64,
                tag + id + cycle,
                message.payload + rest,
            );
            assert(bytes =~= (tag + id + cycle) + length + (message.payload + rest));
            assert(bytes.subrange(
                PUT_HEADER_BYTES as int,
                PUT_HEADER_BYTES + message.payload.len(),
            ) =~= message.payload);
        },
    }
}

/// Reading a frame that was made from a request gives the request back and
/// takes exactly the frame's bytes, whatever follows them in the stream.
pub proof fn frame_round_trip(request: Request, rest: Seq<u8>)
    requires
        request_bytes(request).len() <= u32::MAX,
    ensures
        parse_frame(frame_bytes(request) + rest) == Ok::<(Request, int), FramingError>(
            (request, frame_bytes(request).len() as int),
        ),
{
    let body = request_bytes(request);
    let stream = frame_bytes(request) + rest;
    lemma_u32_le_round_trip(body.len() as u32, Seq::empty(), body + rest);
    assert(stream =~= Seq::empty() + u32_le_bytes(body.len() as u32) + (body + rest));
    assert(stream.subrange(MSG_SIZE_BYTES as int, MSG_SIZE_BYTES + body.len()) =~= body);
    request_round_trip(request, Seq::empty());
    assert(body + Seq::empty() =~= body);
}

} // verus!
