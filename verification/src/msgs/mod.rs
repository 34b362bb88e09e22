//! Message types and the codec contract every message type satisfies.
//!
//! All multi-byte fields travel little-endian. The helpers in this module
//! define that byte order once, as spec functions, and give executable
//! readers and writers proved against them.

use vstd::prelude::*;

pub mod rosserial_msgs;
pub mod std_msgs;

verus! {

/// The two bytes of `v`, low byte first.
pub open spec fn le_bytes_u16(v: u16) -> Seq<u8> {
    seq![(v % 256) as u8, (v / 256) as u8]
}

/// The four bytes of `v`, low byte first.
pub open spec fn le_bytes_u32(v: u32) -> Seq<u8> {
    seq![
        (v % 256) as u8,
        (v / 256 % 256) as u8,
        (v / 65536 % 256) as u8,
        (v / 16777216) as u8,
    ]
}

/// The value whose low byte is `lo` and whose high byte is `hi`.
pub open spec fn le_value_u16(lo: u8, hi: u8) -> u16 {
    (lo as int + 256 * (hi as int)) as u16
}

/// The value held little-endian in the four bytes of `src` that start at `at`.
pub open spec fn le_value_u32(src: Seq<u8>, at: int) -> u32
    recommends
        0 <= at,
        at + 4 <= src.len(),
{
    (src[at] as int + 256 * (src[at + 1] as int) + 65536 * (src[at + 2] as int) + 16777216 * (
    src[at + 3] as int)) as u32
}

/// Reading back what `le_bytes_u16` wrote gives the value that was written.
pub proof fn lemma_u16_le_round_trip(v: u16)
    ensures
        le_value_u16(le_bytes_u16(v)[0], le_bytes_u16(v)[1]) == v,
{
}

/// Four bytes put together little-endian give back the value whose bytes
/// they are.
pub proof fn lemma_u32_from_bytes(v: u32)
    ensures
        v == v % 256 + 256 * (v / 256 % 256) + 65536 * (v / 65536 % 256) + 16777216 * (v
            / 16777216),
        v / 16777216 < 256,
{
    assert(v == v % 256 + 256 * (v / 256 % 256) + 65536 * (v / 65536 % 256) + 16777216 * (v
        / 16777216)) by (bit_vector);
    assert(v / 16777216 < 256) by (bit_vector);
}

/// Reading at `at` where the bytes of `v` lie gives `v`, whatever lies
/// before and behind them.
pub proof fn lemma_u32_le_read(src: Seq<u8>, at: int, v: u32)
    requires
        0 <= at,
        at + 4 <= src.len(),
        src.subrange(at, at + 4) == le_bytes_u32(v),
    ensures
        le_value_u32(src, at) == v,
{
    let part = src.subrange(at, at + 4);
    assert(src[at] == part[0]);
    assert(src[at + 1] == part[1]);
    assert(src[at + 2] == part[2]);
    assert(src[at + 3] == part[3]);
    lemma_u32_from_bytes(v);
}

/// Reading back what `le_bytes_u32` wrote gives the value that was written,
/// whatever follows the four bytes.
pub proof fn lemma_u32_le_round_trip(v: u32, rest: Seq<u8>)
    ensures
        le_value_u32(le_bytes_u32(v) + rest, 0) == v,
{
    assert((le_bytes_u32(v) + rest).subrange(0, 4) =~= le_bytes_u32(v));
    lemma_u32_le_read(le_bytes_u32(v) + rest, 0, v);
}

/// The low byte of `v`.
pub fn low_byte(v: u16) -> (b: u8)
    ensures
        b == v % 256,
        b == le_bytes_u16(v)[0],
{
    let masked: u16 = v & 0xFF;
    assert(masked == v % 256) by (bit_vector)
        requires
            masked == v & 0xFF,
    ;
    masked as u8
}

/// The high byte of `v`.
pub fn high_byte(v: u16) -> (b: u8)
    ensures
        b == v / 256,
        b == le_bytes_u16(v)[1],
{
    let shifted: u16 = (v >> 8) & 0xFF;
    assert(shifted == v / 256) by (bit_vector)
        requires
            shifted == (v >> 8) & 0xFF,
    ;
    shifted as u8
}

/// Joins a low and a high byte into the 16-bit value they spell.
pub fn join_u16(lo: u8, hi: u8) -> (v: u16)
    ensures
        v == le_value_u16(lo, hi),
        v == lo as int + 256 * (hi as int),
{
    let v: u16 = (lo as u16) | ((hi as u16) << 8);
    assert(v == (lo as u16) + 256 * (hi as u16)) by (bit_vector)
        requires
            v == (lo as u16) | ((hi as u16) << 8),
    ;
    v
}

/// Writes `v` little-endian into `buf[at..at + 2]` and leaves the rest of
/// `buf` as it was.
pub fn write_u16_le(buf: &mut [u8], at: usize, v: u16)
    requires
        at + 2 <= old(buf)@.len(),
    ensures
        final(buf)@ == old(buf)@.subrange(0, at as int) + le_bytes_u16(v) + old(buf)@.skip(
            at + 2,
        ),
{
    buf[at] = low_byte(v);
    buf[at + 1] = high_byte(v);
    assert(buf@ =~= old(buf)@.subrange(0, at as int) + le_bytes_u16(v) + old(buf)@.skip(at + 2));
}

/// Writes `v` little-endian into `buf[at..at + 4]` and leaves the rest of
/// `buf` as it was.
pub fn write_u32_le(buf: &mut [u8], at: usize, v: u32)
    requires
        at + 4 <= old(buf)@.len(),
    ensures
        final(buf)@ == old(buf)@.subrange(0, at as int) + le_bytes_u32(v) + old(buf)@.skip(
            at + 4,
        ),
{
    let b0: u32 = v & 0xFF;
    let b1: u32 = (v >> 8) & 0xFF;
    let b2: u32 = (v >> 16) & 0xFF;
    let b3: u32 = (v >> 24) & 0xFF;
    assert(b0 == v % 256 && b1 == v / 256 % 256 && b2 == v / 65536 % 256 && b3 == v / 16777216)
        by (bit_vector)
        requires
            b0 == v & 0xFF,
            b1 == (v >> 8) & 0xFF,
            b2 == (v >> 16) & 0xFF,
            b3 == (v >> 24) & 0xFF,
    ;
    buf[at] = b0 as u8;
    buf[at + 1] = b1 as u8;
    buf[at + 2] = b2 as u8;
    buf[at + 3] = b3 as u8;
    assert(buf@ =~= old(buf)@.subrange(0, at as int) + le_bytes_u32(v) + old(buf)@.skip(at + 4));
}

/// Reads the little-endian 32-bit value held in `buf[at..at + 4]`.
pub fn read_u32_le(buf: &[u8], at: usize) -> (v: u32)
    requires
        at + 4 <= buf@.len(),
    ensures
        v == le_value_u32(buf@, at as int),
{
    let b0: u32 = buf[at] as u32;
    let b1: u32 = buf[at + 1] as u32;
    let b2: u32 = buf[at + 2] as u32;
    let b3: u32 = buf[at + 3] as u32;
    let v: u32 = b0 | (b1 << 8) | (b2 << 16) | (b3 << 24);
    assert(v == b0 + 256 * b1 + 65536 * b2 + 16777216 * b3) by (bit_vector)
        requires
            v == b0 | (b1 << 8) | (b2 << 16) | (b3 << 24),
            b0 < 256,
            b1 < 256,
            b2 < 256,
            b3 < 256,
    ;
    v
}

/// Copies `src` into `buf[at..at + src.len()]` and leaves the rest of `buf`
/// as it was.
pub fn write_bytes(buf: &mut [u8], at: usize, src: &[u8])
    requires
        at + src@.len() <= old(buf)@.len(),
    ensures
        final(buf)@ == old(buf)@.subrange(0, at as int) + src@ + old(buf)@.skip(
            at + src@.len(),
        ),
{
    let n: usize = src.len();
    let room: usize = buf.len();
    let mut i: usize = 0;
    while i < n
        invariant
            n == src@.len(),
            i <= n,
            at + n <= room,
            room == buf@.len(),
            buf@.len() == old(buf)@.len(),
            buf@ =~= old(buf)@.subrange(0, at as int) + src@.subrange(0, i as int) + old(buf)@.skip(
                at + i,
            ),
        decreases n - i,
    {
        buf[at + i] = src[i];
        i = i + 1;
    }
    assert(src@.subrange(0, n as int) =~= src@);
}

/// What every message type offers: its wire encoding, a decoder, and the
/// type name and schema checksum by which the host recognises the type.
pub trait Message {
    /// The bytes this message encodes to.
    spec fn wire(&self) -> Seq<u8>;

    /// How many bytes of `src` a call of `deserialize` reads. Zero where
    /// `src` is too short to hold a message, or where the type has no decoder.
    spec fn consumed(&self, src: Seq<u8>) -> nat;

    /// The encoding of the message that `self` becomes when it decodes `src`.
    spec fn wire_after(&self, src: Seq<u8>) -> Seq<u8>;

    /// Whether the encoding fits into `capacity` bytes.
    fn fits(&self, capacity: usize) -> (b: bool)
        ensures
            b == (self.wire().len() <= capacity),
    ;

    /// Writes the encoding to the front of `buf`, leaves what lies behind it
    /// unchanged, and returns its length.
    fn serialize(&self, buf: &mut [u8]) -> (n: u16)
        requires
            self.wire().len() <= old(buf)@.len(),
            self.wire().len() <= u16::MAX,
        ensures
            n == self.wire().len(),
            final(buf)@ == self.wire() + old(buf)@.skip(n as int),
    ;

    /// Decodes a message from the front of `buf` into `self` and returns the
    /// number of bytes read. A `buf` too short to hold a message leaves
    /// `self` as it was and reads nothing.
    fn deserialize(&mut self, buf: &[u8]) -> (n: u16)
        ensures
            n == old(self).consumed(buf@),
            n <= buf@.len(),
            final(self).wire() == old(self).wire_after(buf@),
            n == 0 ==> final(self).wire() == old(self).wire(),
    ;

    /// The characters of the type's name.
    spec fn name_chars() -> Seq<char> where Self: Sized;

    /// The characters of the type's schema checksum.
    spec fn md5_chars() -> Seq<char> where Self: Sized;

    /// The type's name, as the host spells it.
    fn name() -> (r: &'static str) where Self: Sized
        ensures
            r@ == Self::name_chars(),
    ;

    /// The MD5 checksum of the type's schema, in hexadecimal.
    fn md5() -> (r: &'static str) where Self: Sized
        ensures
            r@ == Self::md5_chars(),
    ;
}

} // verus!
