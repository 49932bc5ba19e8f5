//! Length-prefixed frames: four bytes of length, least significant first, then the body.

use crate::protocol::serialization::{
    encodable, lemma_int_bytes_len, lemma_u32_written, message_bytes, serialize, u32_at,
    u32_bytes, WireError,
};
use crate::protocol::Message;
use vstd::bytes::{u32_from_le_bytes, u32_to_le_bytes};
use vstd::prelude::*;
use vstd::slice::{slice_subrange, slice_to_vec};

verus! {

/// Number of bytes in the length prefix of a frame.
pub const FRAME_HEADER_BYTES: usize = 4;

/// The frame that carries `body`.
pub open spec fn frame_bytes(body: Seq<u8>) -> Seq<u8> {
    u32_bytes(body.len() as u32) + body
}

/// Whether the buffer starts with a whole frame.
pub open spec fn holds_frame(buffer: Seq<u8>) -> bool {
    buffer.len() >= FRAME_HEADER_BYTES && buffer.len() >= FRAME_HEADER_BYTES + u32_at(buffer, 0)
}

/// Length of the frame at the start of the buffer, prefix included.
pub open spec fn first_frame_len(buffer: Seq<u8>) -> int {
    FRAME_HEADER_BYTES + u32_at(buffer, 0)
}

/// The body of the frame at the start of the buffer.
pub open spec fn first_frame_body(buffer: Seq<u8>) -> Seq<u8> {
    buffer.subrange(FRAME_HEADER_BYTES as int, first_frame_len(buffer))
}

/// A frame followed by anything is found again at the start of the buffer, with its body.
pub proof fn lemma_frame_found(body: Seq<u8>, rest: Seq<u8>)
    requires
        body.len() <= u32::MAX,
    ensures
        holds_frame(frame_bytes(body) + rest),
        first_frame_len(frame_bytes(body) + rest) == frame_bytes(body).len(),
        first_frame_body(frame_bytes(body) + rest) == body,
{
    let buffer = frame_bytes(body) + rest;
    lemma_int_bytes_len(body.len() as u32, 0);
    assert(buffer.subrange(0, 4) =~= u32_bytes(body.len() as u32));
    lemma_u32_written(buffer, 0, body.len() as u32);
    assert(first_frame_body(buffer) =~= body);
}

/// Puts the length prefix in front of a body. It fails only for a body whose length
/// does not fit the prefix.
pub fn frame(body: &[u8]) -> (result: Result<Vec<u8>, WireError>)
    ensures
        match result {
            Ok(framed) => body@.len() <= u32::MAX && framed@ == frame_bytes(body@),
            Err(e) => body@.len() > u32::MAX && e == WireError::TooLarge,
        },
{
    if body.len() > u32::MAX as usize {
        return Err(WireError::TooLarge);
    }
    let mut framed = u32_to_le_bytes(body.len() as u32);
    let mut copy = slice_to_vec(body);
    framed.append(&mut copy);
    Ok(framed)
}

/// Encodes a message and frames it, ready to be written to a connection.
pub fn frame_message(message: &Message) -> (result: Result<Vec<u8>, WireError>)
    ensures
        match result {
            Ok(framed) => encodable(message@) && message_bytes(message@).len() <= u32::MAX
                && framed@ == frame_bytes(message_bytes(message@)),
            Err(e) => e == WireError::TooLarge && (!encodable(message@) || message_bytes(
                message@,
            ).len() > u32::MAX),
        },
{
    match serialize(message) {
        Ok(body) => frame(body.as_slice()),
        Err(e) => Err(e),
    }
}

/// Length of the first frame in the buffer, prefix included, once the whole frame has
/// arrived; `None` while more bytes are needed.
pub fn next_frame(buffer: &[u8]) -> (found: Option<usize>)
    ensures
        match found {
            Some(n) => holds_frame(buffer@) && n == first_frame_len(buffer@),
            None => !holds_frame(buffer@),
        },
{
    let len = buffer.len();
    if len < FRAME_HEADER_BYTES {
        return None;
    }
    let announced = u32_from_le_bytes(slice_subrange(buffer, 0, 4));
    if ((len - FRAME_HEADER_BYTES) as u64) < announced as u64 {
        return None;
    }
    Some(FRAME_HEADER_BYTES + announced as usize)
}

} // verus!
