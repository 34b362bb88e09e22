//! Control-channel topic ids and the message that announces a topic.

use super::{le_bytes_u16, le_bytes_u32, write_bytes, write_u16_le, write_u32_le, Message};
use vstd::prelude::*;
use vstd::string::*;

verus! {

/// The host asks for the node's topics; the node announces a publisher.
pub const TOPICINFO_ID_PUBLISHER: u16 = 0;

/// The node announces a subscriber.
pub const TOPICINFO_ID_SUBSCRIBER: u16 = 1;

/// The node announces a service server.
pub const TOPICINFO_ID_SERVICE_SERVER: u16 = 2;

/// The node announces a service client.
pub const TOPICINFO_ID_SERVICE_CLIENT: u16 = 4;

/// A parameter request.
pub const TOPICINFO_ID_PARAMETER_REQUEST: u16 = 6;

/// A log line.
pub const TOPICINFO_ID_LOG: u16 = 7;

/// Time synchronisation.
pub const TOPICINFO_ID_TIME: u16 = 10;

/// The host asks the node to stop publishing.
pub const TOPICINFO_ID_TX_STOP: u16 = 11;

/// The smallest id a user topic can have; the ids below are reserved.
pub const FIRST_USER_TOPIC_ID: u16 = 100;

/// The inbound buffer size that every announcement advertises.
pub const ADVERTISED_BUFFER_SIZE: u32 = 256;

/// The announcement of one topic: its id, name, message type, the
/// type's schema checksum, and the size of the node's inbound buffer.
#[derive(Clone, Copy)]
pub struct TopicInfo {
    pub id: u16,
    pub name: &'static str,
    pub message_type: &'static str,
    pub md5: &'static str,
    pub buffer_size: u32,
}

impl Default for TopicInfo {
    fn default() -> (t: TopicInfo)
        ensures
            t.id == 0,
            t.name@ == Seq::<char>::empty(),
            t.message_type@ == Seq::<char>::empty(),
            t.md5@ == Seq::<char>::empty(),
            t.buffer_size == 0,
    {
        proof {
            reveal_strlit("");
        }
        assert(""@ =~= Seq::<char>::empty());
        TopicInfo { id: 0, name: "", message_type: "", md5: "", buffer_size: 0 }
    }
}

/// A string on the wire: its length in bytes as four little-endian bytes,
/// then the bytes themselves.
pub open spec fn string_field(bytes: Seq<u8>) -> Seq<u8> {
    le_bytes_u32(bytes.len() as u32) + bytes
}

/// The encoding of an announcement with these fields.
pub open spec fn topic_info_wire(
    id: u16,
    name: Seq<u8>,
    message_type: Seq<u8>,
    md5: Seq<u8>,
    buffer_size: u32,
) -> Seq<u8> {
    le_bytes_u16(id) + string_field(name) + string_field(message_type) + string_field(md5)
        + le_bytes_u32(buffer_size)
}

/// An encoded announcement is 18 bytes longer than its three strings together.
pub proof fn lemma_topic_info_wire_len(
    id: u16,
    name: Seq<u8>,
    message_type: Seq<u8>,
    md5: Seq<u8>,
    buffer_size: u32,
)
    ensures
        topic_info_wire(id, name, message_type, md5, buffer_size).len() == 18 + name.len()
            + message_type.len() + md5.len(),
{
}

/// Writing `added` at offset `at` of a buffer whose first `at` bytes are
/// `written` makes its first bytes `written + added` and leaves the tail of
/// the buffer as it was at first behind them.
proof fn lemma_extend_written(
    orig: Seq<u8>,
    before: Seq<u8>,
    after: Seq<u8>,
    written: Seq<u8>,
    added: Seq<u8>,
)
    requires
        written.len() + added.len() <= orig.len(),
        before == written + orig.skip(written.len() as int),
        after == before.subrange(0, written.len() as int) + added + before.skip(
            (written.len() + added.len()) as int,
        ),
    ensures
        after == (written + added) + orig.skip((written.len() + added.len()) as int),
{
    assert(after =~= (written + added) + orig.skip((written.len() + added.len()) as int));
}

impl Message for TopicInfo {
    open spec fn wire(&self) -> Seq<u8> {
        topic_info_wire(
            self.id,
            self.name.spec_bytes(),
            self.message_type.spec_bytes(),
            self.md5.spec_bytes(),
            self.buffer_size,
        )
    }

    /// Announcements travel from the node to the host only: nothing is read.
    open spec fn consumed(&self, src: Seq<u8>) -> nat {
        0
    }

    open spec fn wire_after(&self, src: Seq<u8>) -> Seq<u8> {
        self.wire()
    }

    open spec fn name_chars() -> Seq<char> {
        "rosserial_msgs/TopicInfo"@
    }

    open spec fn md5_chars() -> Seq<char> {
        "0ad51f88fc44892f8c10684077646005"@
    }

    fn fits(&self, capacity: usize) -> (b: bool) {
        proof {
            lemma_topic_info_wire_len(
                self.id,
                self.name.spec_bytes(),
                self.message_type.spec_bytes(),
                self.md5.spec_bytes(),
                self.buffer_size,
            );
        }
        if capacity < 18 {
            return false;
        }
        let mut room: usize = capacity - 18;
        let name_len: usize = self.name.as_bytes().len();
        if name_len > room {
            return false;
        }
        room = room - name_len;
        let type_len: usize = self.message_type.as_bytes().len();
        if type_len > room {
            return false;
        }
        room = room - type_len;
        let md5_len: usize = self.md5.as_bytes().len();
        md5_len <= room
    }

    fn serialize(&self, buf: &mut [u8]) -> (n: u16) {
        let name: &[u8] = self.name.as_bytes();
        let message_type: &[u8] = self.message_type.as_bytes();
        let md5: &[u8] = self.md5.as_bytes();
        let ghost orig = buf@;
        proof {
            lemma_topic_info_wire_len(self.id, name@, message_type@, md5@, self.buffer_size);
        }

        let ghost mut written: Seq<u8> = Seq::empty();
        let ghost mut before: Seq<u8> = buf@;
        assert(buf@ =~= written + orig.skip(0));

        write_u16_le(buf, 0, self.id);
        proof {
            lemma_extend_written(orig, before, buf@, written, le_bytes_u16(self.id));
            written = written + le_bytes_u16(self.id);
            before = buf@;
        }
        let mut offset: usize = 2;

        write_u32_le(buf, offset, name.len() as u32);
        proof {
            lemma_extend_written(orig, before, buf@, written, le_bytes_u32(name@.len() as u32));
            written = written + le_bytes_u32(name@.len() as u32);
            before = buf@;
        }
        offset = offset + 4;
        write_bytes(buf, offset, name);
        proof {
            lemma_extend_written(orig, before, buf@, written, name@);
            written = written + name@;
            before = buf@;
        }
        offset = offset + name.len();

        write_u32_le(buf, offset, message_type.len() as u32);
        proof {
            lemma_extend_written(
                orig,
                before,
                buf@,
                written,
                le_bytes_u32(message_type@.len() as u32),
            );
            written = written + le_bytes_u32(message_type@.len() as u32);
            before = buf@;
        }
        offset = offset + 4;
        write_bytes(buf, offset, message_type);
        proof {
            lemma_extend_written(orig, before, buf@, written, message_type@);
            written = written + message_type@;
            before = buf@;
        }
        offset = offset + message_type.len();

        write_u32_le(buf, offset, md5.len() as u32);
        proof {
            lemma_extend_written(orig, before, buf@, written, le_bytes_u32(md5@.len() as u32));
            written = written + le_bytes_u32(md5@.len() as u32);
            before = buf@;
        }
        offset = offset + 4;
        write_bytes(buf, offset, md5);
        proof {
            lemma_extend_written(orig, before, buf@, written, md5@);
            written = written + md5@;
            before = buf@;
        }
        offset = offset + md5.len();

        write_u32_le(buf, offset, self.buffer_size);
        proof {
            lemma_extend_written(orig, before, buf@, written, le_bytes_u32(self.buffer_size));
            written = written + le_bytes_u32(self.buffer_size);
        }
        offset = offset + 4;

        assert(written =~= self.wire());
        offset as u16
    }

    fn deserialize(&mut self, buf: &[u8]) -> (n: u16)
        ensures
            *final(self) == *old(self),
    {
        0
    }

    fn name() -> (r: &'static str) {
        "rosserial_msgs/TopicInfo"
    }

    fn md5() -> (r: &'static str) {
        "0ad51f88fc44892f8c10684077646005"
    }
}

} // verus!
