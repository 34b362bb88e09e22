//! The frame codec: how a topic id and a payload become bytes on the wire.
//!
//! A frame is the sync byte, the protocol version, the payload length (two
//! bytes, low first), the checksum of the length, the topic id (two bytes,
//! low first), the payload, and the checksum of topic id and payload.

use crate::msgs::{high_byte, le_bytes_u16, low_byte, Message};
use vstd::prelude::*;

verus! {

/// The byte that opens every frame.
pub const SYNC_BYTE: u8 = 0xFF;

/// The byte that names the protocol version; it follows the sync byte.
pub const PROTOCOL_VERSION: u8 = 0xFE;

/// The number of bytes before the payload.
pub const HEADER_LEN: usize = 7;

/// The number of bytes a frame adds to its payload: header and checksum.
pub const FRAME_OVERHEAD: usize = 8;

/// Why a frame could not be built.
#[derive(Clone, Copy, Debug, PartialEq, Eq, Structural)]
pub enum FrameError {
    /// Header, payload and checksum together exceed the destination, or the
    /// payload is longer than a 16-bit length can say.
    PayloadTooLarge,
}

/// The sum of the bytes.
pub open spec fn byte_sum(bytes: Seq<u8>) -> int
    decreases bytes.len(),
{
    if bytes.len() == 0 {
        0
    } else {
        byte_sum(bytes.drop_last()) + bytes.last() as int
    }
}

/// The checksum of the bytes: 255 less their sum modulo 256.
pub open spec fn spec_checksum8(bytes: Seq<u8>) -> u8 {
    (255 - byte_sum(bytes) % 256) as u8
}

/// The seven bytes that precede a payload of `len` bytes on topic `topic`.
pub open spec fn spec_header(len: u16, topic: u16) -> Seq<u8> {
    seq![SYNC_BYTE, PROTOCOL_VERSION] + le_bytes_u16(len) + seq![
        spec_checksum8(le_bytes_u16(len)),
    ] + le_bytes_u16(topic)
}

/// The whole frame that carries `payload` on topic `topic`.
pub open spec fn spec_frame(topic: u16, payload: Seq<u8>) -> Seq<u8>
    recommends
        payload.len() <= u16::MAX,
{
    spec_header(payload.len() as u16, topic) + payload + seq![
        spec_checksum8(le_bytes_u16(topic) + payload),
    ]
}

/// The sum of no bytes is zero, and a byte appended adds its value.
pub proof fn lemma_byte_sum_push(bytes: Seq<u8>, b: u8)
    ensures
        byte_sum(Seq::<u8>::empty()) == 0,
        byte_sum(bytes.push(b)) == byte_sum(bytes) + b as int,
        byte_sum(bytes) >= 0,
    decreases bytes.len(),
{
    assert(bytes.push(b).drop_last() =~= bytes);
    if bytes.len() > 0 {
        lemma_byte_sum_push(bytes.drop_last(), bytes.last());
        assert(bytes.drop_last().push(bytes.last()) =~= bytes);
    }
}

/// The sum of a concatenation is the sum of the sums.
pub proof fn lemma_byte_sum_concat(a: Seq<u8>, b: Seq<u8>)
    ensures
        byte_sum(a + b) == byte_sum(a) + byte_sum(b),
    decreases b.len(),
{
    if b.len() == 0 {
        assert(a + b =~= a);
    } else {
        lemma_byte_sum_concat(a, b.drop_last());
        assert((a + b).drop_last() =~= a + b.drop_last());
        assert((a + b).last() == b.last());
    }
}

/// A frame is eight bytes longer than its payload.
pub proof fn lemma_frame_len(topic: u16, payload: Seq<u8>)
    ensures
        spec_header(payload.len() as u16, topic).len() == HEADER_LEN,
        spec_frame(topic, payload).len() == payload.len() + FRAME_OVERHEAD,
{
}

/// The checksum of `bytes`.
pub fn checksum8(bytes: &[u8]) -> (c: u8)
    ensures
        c == spec_checksum8(bytes@),
{
    let n: usize = bytes.len();
    let mut sum: u16 = 0;
    let mut i: usize = 0;
    while i < n
        invariant
            n == bytes@.len(),
            i <= n,
            sum < 256,
            sum == byte_sum(bytes@.subrange(0, i as int)) % 256,
        decreases n - i,
    {
        proof {
            lemma_byte_sum_push(bytes@.subrange(0, i as int), bytes@[i as int]);
            assert(bytes@.subrange(0, i as int).push(bytes@[i as int]) =~= bytes@.subrange(
                0,
                i + 1,
            ));
        }
        sum = (sum + bytes[i] as u16) % 256;
        i = i + 1;
    }
    assert(bytes@.subrange(0, n as int) =~= bytes@);
    (255 - sum) as u8
}

/// The checksum of `head` followed by the first `len` bytes of `body`.
fn checksum_of_parts(head: &[u8], body: &[u8], len: usize) -> (c: u8)
    requires
        len <= body@.len(),
    ensures
        c == spec_checksum8(head@ + body@.subrange(0, len as int)),
{
    let a: u8 = checksum8(head);
    let b: u8 = checksum8(vstd::slice::slice_subrange(body, 0, len));
    let sum: u16 = ((255 - a) as u16 + (255 - b) as u16) % 256;
    proof {
        lemma_byte_sum_concat(head@, body@.subrange(0, len as int));
        lemma_byte_sum_push(head@, 0);
        lemma_byte_sum_push(body@.subrange(0, len as int), 0);
    }
    (255 - sum) as u8
}

/// The header of a frame whose payload has `len` bytes and goes to `topic`.
pub fn encode_header(len: u16, topic: u16) -> (header: [u8; 7])
    ensures
        header@ == spec_header(len, topic),
{
    let len_lo: u8 = low_byte(len);
    let len_hi: u8 = high_byte(len);
    let len_bytes: [u8; 2] = [len_lo, len_hi];
    assert(len_bytes@ =~= le_bytes_u16(len));
    let len_checksum: u8 = checksum8(len_bytes.as_slice());
    let header: [u8; 7] = [
        SYNC_BYTE,
        PROTOCOL_VERSION,
        len_lo,
        len_hi,
        len_checksum,
        low_byte(topic),
        high_byte(topic),
    ];
    assert(header@ =~= spec_header(len, topic));
    header
}

/// Whether a payload of `len` bytes can be framed into `capacity` bytes.
pub open spec fn frame_fits(len: nat, capacity: nat) -> bool {
    len + FRAME_OVERHEAD <= capacity && len <= u16::MAX
}

/// Builds the frame that carries `msg` on `topic_id` at the front of `dest`
/// and returns its length. What lies behind the frame stays as it was.
///
/// Where the frame does not fit, nothing is written and the call fails.
pub fn encode_frame<M: Message + ?Sized>(topic_id: u16, msg: &M, dest: &mut [u8]) -> (r: Result<
    usize,
    FrameError,
>)
    ensures
        r is Ok <==> frame_fits(msg.wire().len(), old(dest)@.len()),
        r matches Ok(n) ==> n == msg.wire().len() + FRAME_OVERHEAD && final(dest)@ == spec_frame(
            topic_id,
            msg.wire(),
        ) + old(dest)@.skip(n as int),
        r matches Err(e) ==> e == FrameError::PayloadTooLarge && final(dest)@ == old(dest)@,
{
    let capacity: usize = dest.len();
    if capacity < FRAME_OVERHEAD {
        return Err(FrameError::PayloadTooLarge);
    }
    let room: usize = if capacity - FRAME_OVERHEAD > 0xFFFF {
        0xFFFF
    } else {
        capacity - FRAME_OVERHEAD
    };
    if !msg.fits(room) {
        return Err(FrameError::PayloadTooLarge);
    }
    let ghost payload = msg.wire();
    let (head, tail) = dest.split_at_mut(HEADER_LEN);
    let len: u16 = msg.serialize(tail);
    let header: [u8; 7] = encode_header(len, topic_id);
    let mut i: usize = 0;
    while i < HEADER_LEN
        invariant
            i <= HEADER_LEN,
            head@.len() == HEADER_LEN,
            forall|j: int| 0 <= j < i ==> head@[j] == header@[j],
        decreases HEADER_LEN - i,
    {
        head[i] = header[i];
        i = i + 1;
    }
    assert(head@ =~= header@);
    let topic_bytes: [u8; 2] = [header[5], header[6]];
    assert(topic_bytes@ =~= le_bytes_u16(topic_id));
    assert(tail@.subrange(0, len as int) =~= payload);
    let checksum: u8 = checksum_of_parts(topic_bytes.as_slice(), tail, len as usize);
    tail[len as usize] = checksum;
    let n: usize = len as usize + FRAME_OVERHEAD;
    assert(head@ + tail@ =~= spec_frame(topic_id, payload) + old(dest)@.skip(n as int));
    Ok(n)
}

} // verus!
