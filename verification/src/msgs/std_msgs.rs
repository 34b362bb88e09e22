//! The standard message types: a boolean, a timestamp, and the message
//! without content.

use super::{le_bytes_u32, le_value_u32, read_u32_le, write_u32_le, Message};
use crate::ros;
use vstd::prelude::*;

verus! {

/// A single boolean, one byte on the wire.
pub struct Bool {
    pub data: bool,
}

impl Default for Bool {
    fn default() -> (m: Bool)
        ensures
            !m.data,
    {
        Bool { data: false }
    }
}

impl Bool {
    /// The byte that stands for `data`.
    pub open spec fn flag_byte(data: bool) -> u8 {
        if data {
            1u8
        } else {
            0u8
        }
    }
}

impl Message for Bool {
    open spec fn wire(&self) -> Seq<u8> {
        seq![Bool::flag_byte(self.data)]
    }

    open spec fn consumed(&self, src: Seq<u8>) -> nat {
        if src.len() >= 1 {
            1
        } else {
            0
        }
    }

    open spec fn wire_after(&self, src: Seq<u8>) -> Seq<u8> {
        if src.len() >= 1 {
            seq![Bool::flag_byte(src[0] != 0)]
        } else {
            self.wire()
        }
    }

    open spec fn name_chars() -> Seq<char> {
        "std_msgs/Bool"@
    }

    open spec fn md5_chars() -> Seq<char> {
        "8b94c1b53db61fb6aed406028ad6332a"@
    }

    fn fits(&self, capacity: usize) -> (b: bool) {
        capacity >= 1
    }

    fn serialize(&self, buf: &mut [u8]) -> (n: u16) {
        buf[0] = if self.data {
            1
        } else {
            0
        };
        assert(buf@ =~= self.wire() + old(buf)@.skip(1));
        1
    }

    fn deserialize(&mut self, buf: &[u8]) -> (n: u16)
        ensures
            buf@.len() >= 1 ==> final(self).data == (buf@[0] != 0),
            buf@.len() < 1 ==> *final(self) == *old(self),
    {
        if buf.len() < 1 {
            return 0;
        }
        self.data = buf[0] != 0;
        1
    }

    fn name() -> (r: &'static str) {
        "std_msgs/Bool"
    }

    fn md5() -> (r: &'static str) {
        "8b94c1b53db61fb6aed406028ad6332a"
    }
}

/// A timestamp: seconds, then nanoseconds, four bytes each.
pub struct Time {
    pub data: ros::Time,
}

impl Default for Time {
    fn default() -> (m: Time)
        ensures
            m.data.sec == 0,
            m.data.nsec == 0,
    {
        Time { data: ros::Time { sec: 0, nsec: 0 } }
    }
}

impl Message for Time {
    open spec fn wire(&self) -> Seq<u8> {
        le_bytes_u32(self.data.sec) + le_bytes_u32(self.data.nsec)
    }

    open spec fn consumed(&self, src: Seq<u8>) -> nat {
        if src.len() >= 8 {
            8
        } else {
            0
        }
    }

    open spec fn wire_after(&self, src: Seq<u8>) -> Seq<u8> {
        if src.len() >= 8 {
            le_bytes_u32(le_value_u32(src, 0)) + le_bytes_u32(le_value_u32(src, 4))
        } else {
            self.wire()
        }
    }

    open spec fn name_chars() -> Seq<char> {
        "std_msgs/Time"@
    }

    open spec fn md5_chars() -> Seq<char> {
        "cd7166c74c552c311fbcc2fe5a7bc289"@
    }

    fn fits(&self, capacity: usize) -> (b: bool) {
        capacity >= 8
    }

    fn serialize(&self, buf: &mut [u8]) -> (n: u16) {
        write_u32_le(buf, 0, self.data.sec);
        write_u32_le(buf, 4, self.data.nsec);
        assert(buf@ =~= self.wire() + old(buf)@.skip(8));
        8
    }

    fn deserialize(&mut self, buf: &[u8]) -> (n: u16)
        ensures
            buf@.len() >= 8 ==> final(self).data.sec == le_value_u32(buf@, 0),
            buf@.len() >= 8 ==> final(self).data.nsec == le_value_u32(buf@, 4),
            buf@.len() < 8 ==> *final(self) == *old(self),
    {
        if buf.len() < 8 {
            return 0;
        }
        let sec: u32 = read_u32_le(buf, 0);
        let nsec: u32 = read_u32_le(buf, 4);
        self.data.sec = sec;
        self.data.nsec = nsec;
        8
    }

    fn name() -> (r: &'static str) {
        "std_msgs/Time"
    }

    fn md5() -> (r: &'static str) {
        "cd7166c74c552c311fbcc2fe5a7bc289"
    }
}

/// A message without content: nothing on the wire.
pub struct Empty {}

impl Default for Empty {
    fn default() -> (m: Empty) {
        Empty {  }
    }
}

impl Message for Empty {
    open spec fn wire(&self) -> Seq<u8> {
        Seq::empty()
    }

    open spec fn consumed(&self, src: Seq<u8>) -> nat {
        0
    }

    open spec fn wire_after(&self, src: Seq<u8>) -> Seq<u8> {
        Seq::empty()
    }

    open spec fn name_chars() -> Seq<char> {
        "std_msgs/Empty"@
    }

    open spec fn md5_chars() -> Seq<char> {
        "d41d8cd98f00b204e9800998ecf8427e"@
    }

    fn fits(&self, capacity: usize) -> (b: bool) {
        true
    }

    fn serialize(&self, buf: &mut [u8]) -> (n: u16) {
        assert(buf@ =~= self.wire() + old(buf)@.skip(0));
        0
    }

    fn deserialize(&mut self, buf: &[u8]) -> (n: u16) {
        0
    }

    fn name() -> (r: &'static str) {
        "std_msgs/Empty"
    }

    fn md5() -> (r: &'static str) {
        "d41d8cd98f00b204e9800998ecf8427e"
    }
}

/// Decoding the encoding of a boolean message gives that message back,
/// whatever follows it in the buffer and whatever the decoder held before.
pub proof fn lemma_bool_round_trip(m: Bool, before: Bool, rest: Seq<u8>)
    ensures
        before.consumed(m.wire() + rest) == 1,
        before.wire_after(m.wire() + rest) == m.wire(),
{
    let src = m.wire() + rest;
    assert(src[0] == Bool::flag_byte(m.data));
}

/// Decoding the encoding of a timestamp gives that timestamp back, whatever
/// follows it in the buffer and whatever the decoder held before.
pub proof fn lemma_time_round_trip(m: Time, before: Time, rest: Seq<u8>)
    ensures
        before.consumed(m.wire() + rest) == 8,
        le_value_u32(m.wire() + rest, 0) == m.data.sec,
        le_value_u32(m.wire() + rest, 4) == m.data.nsec,
        before.wire_after(m.wire() + rest) == m.wire(),
{
    let src = m.wire() + rest;
    assert(src.subrange(0, 4) =~= le_bytes_u32(m.data.sec));
    assert(src.subrange(4, 8) =~= le_bytes_u32(m.data.nsec));
    crate::msgs::lemma_u32_le_read(src, 0, m.data.sec);
    crate::msgs::lemma_u32_le_read(src, 4, m.data.nsec);
}

} // verus!
