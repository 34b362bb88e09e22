//! The frame parser: a state machine that takes one byte at a time and
//! rebuilds frames from an unbounded byte stream.
//!
//! Bytes that do not open a frame are dropped, which is how the parser finds
//! its way back after noise on the line. The two checksums of a frame are
//! read and not compared: a frame with a wrong checksum is accepted.

use super::frame::{spec_checksum8, spec_frame, spec_header, PROTOCOL_VERSION, SYNC_BYTE};
use crate::msgs::{join_u16, le_bytes_u16};
use vstd::prelude::*;

verus! {

/// The number of payload bytes the parser can hold. A frame that announces
/// more is given up when the buffer is full.
pub const MESSAGE_BUFFER_SIZE: usize = 1024;

/// What the parser waits for next.
#[derive(Clone, Copy, Debug, PartialEq, Eq, Structural)]
pub enum State {
    Sync,
    ProtocolVersion,
    SizeLsb,
    SizeMsb,
    SizeChecksum,
    TopicIdLsb,
    TopicIdMsb,
    Message,
    MessageChecksum,
}

/// A frame as the parser hands it on: the topic and the payload.
pub struct Frame {
    pub topic_id: u16,
    pub payload: Seq<u8>,
}

/// The parser as a mathematical value.
pub struct ParserModel {
    /// What the parser waits for next.
    pub state: State,
    /// The payload bytes of the current frame that are still to come.
    pub remaining: u16,
    /// The topic id of the current frame, as far as it has been read.
    pub topic: u16,
    /// The payload bytes of the current frame that have been read.
    pub payload: Seq<u8>,
}

/// What holds of every parser: the payload fits the buffer, a half-read
/// 16-bit field holds its low byte only, and a parser that waits for payload
/// has payload to wait for.
pub open spec fn model_wf(m: ParserModel) -> bool {
    &&& m.payload.len() <= MESSAGE_BUFFER_SIZE
    &&& m.state == State::SizeMsb ==> m.remaining < 256
    &&& m.state == State::TopicIdMsb ==> m.topic < 256
    &&& m.state == State::Message ==> m.remaining > 0
}

/// The parser after it has taken `byte`.
pub open spec fn spec_step(m: ParserModel, byte: u8) -> ParserModel {
    match m.state {
        State::Sync => ParserModel {
            state: if byte == SYNC_BYTE {
                State::ProtocolVersion
            } else {
                State::Sync
            },
            ..m
        },
        State::ProtocolVersion => ParserModel {
            state: if byte == PROTOCOL_VERSION {
                State::SizeLsb
            } else {
                State::Sync
            },
            ..m
        },
        State::SizeLsb => ParserModel {
            state: State::SizeMsb,
            remaining: byte as u16,
            payload: Seq::empty(),
            ..m
        },
        State::SizeMsb => ParserModel {
            state: State::SizeChecksum,
            remaining: (m.remaining + 256 * byte) as u16,
            ..m
        },
        State::SizeChecksum => ParserModel { state: State::TopicIdLsb, ..m },
        State::TopicIdLsb => ParserModel { state: State::TopicIdMsb, topic: byte as u16, ..m },
        State::TopicIdMsb => ParserModel {
            state: if m.remaining == 0 {
                State::MessageChecksum
            } else {
                State::Message
            },
            topic: (m.topic + 256 * byte) as u16,
            ..m
        },
        State::Message => if m.payload.len() >= MESSAGE_BUFFER_SIZE {
            ParserModel { state: State::Sync, ..m }
        } else {
            ParserModel {
                state: if m.remaining == 1 {
                    State::MessageChecksum
                } else {
                    State::Message
                },
                remaining: (m.remaining - 1) as u16,
                payload: m.payload.push(byte),
                ..m
            }
        },
        State::MessageChecksum => ParserModel { state: State::Sync, ..m },
    }
}

/// The frame that a byte completes: the byte that arrives while the parser
/// waits for the closing checksum. No other byte completes a frame.
pub open spec fn spec_completed(m: ParserModel) -> Option<Frame> {
    if m.state == State::MessageChecksum {
        Some(Frame { topic_id: m.topic, payload: m.payload })
    } else {
        None
    }
}

/// The parser after it has taken `bytes`, one at a time.
pub open spec fn spec_feed(m: ParserModel, bytes: Seq<u8>) -> ParserModel
    decreases bytes.len(),
{
    if bytes.len() == 0 {
        m
    } else {
        spec_step(spec_feed(m, bytes.drop_last()), bytes.last())
    }
}

/// The frames that `bytes` complete, in the order in which they complete.
pub open spec fn spec_frames(m: ParserModel, bytes: Seq<u8>) -> Seq<Frame>
    decreases bytes.len(),
{
    if bytes.len() == 0 {
        Seq::empty()
    } else {
        let before = bytes.drop_last();
        match spec_completed(spec_feed(m, before)) {
            Some(frame) => spec_frames(m, before).push(frame),
            None => spec_frames(m, before),
        }
    }
}

/// A step keeps a well-formed parser well-formed.
pub proof fn lemma_step_wf(m: ParserModel, byte: u8)
    requires
        model_wf(m),
    ensures
        model_wf(spec_step(m, byte)),
{
}

/// Feeding keeps a well-formed parser well-formed.
pub proof fn lemma_feed_wf(m: ParserModel, bytes: Seq<u8>)
    requires
        model_wf(m),
    ensures
        model_wf(spec_feed(m, bytes)),
    decreases bytes.len(),
{
    if bytes.len() > 0 {
        lemma_feed_wf(m, bytes.drop_last());
        lemma_step_wf(spec_feed(m, bytes.drop_last()), bytes.last());
    }
}

/// Feeding one byte is one step.
pub proof fn lemma_feed_one(m: ParserModel, byte: u8)
    ensures
        spec_feed(m, seq![byte]) == spec_step(m, byte),
        spec_frames(m, seq![byte]) == match spec_completed(m) {
            Some(frame) => seq![frame],
            None => Seq::<Frame>::empty(),
        },
{
    let s = seq![byte];
    assert(s.drop_last() =~= Seq::<u8>::empty());
    assert(spec_feed(m, s.drop_last()) == m);
    assert(spec_frames(m, s.drop_last()) =~= Seq::<Frame>::empty());
    assert(Seq::<Frame>::empty().push(Frame { topic_id: m.topic, payload: m.payload }) =~= seq![
        Frame { topic_id: m.topic, payload: m.payload },
    ]);
}

/// Feeding `a` and then `b` is feeding `a + b`: the parser ends in the same
/// state and the same frames complete in the same order.
pub proof fn lemma_feed_concat(m: ParserModel, a: Seq<u8>, b: Seq<u8>)
    ensures
        spec_feed(m, a + b) == spec_feed(spec_feed(m, a), b),
        spec_frames(m, a + b) == spec_frames(m, a) + spec_frames(spec_feed(m, a), b),
    decreases b.len(),
{
    if b.len() == 0 {
        assert(a + b =~= a);
        assert(spec_frames(m, a) + Seq::<Frame>::empty() =~= spec_frames(m, a));
    } else {
        lemma_feed_concat(m, a, b.drop_last());
        assert((a + b).drop_last() =~= a + b.drop_last());
        assert((a + b).last() == b.last());
        let mid = spec_feed(m, a);
        match spec_completed(spec_feed(mid, b.drop_last())) {
            Some(frame) => {
                assert((spec_frames(m, a) + spec_frames(mid, b.drop_last())).push(frame)
                    =~= spec_frames(m, a) + spec_frames(mid, b.drop_last()).push(frame));
            },
            None => {},
        }
    }
}

/// Payload bytes fed to a parser that waits for at least that many are
/// appended to the payload, and complete no frame.
proof fn lemma_feed_payload(m: ParserModel, bytes: Seq<u8>)
    requires
        m.state == State::Message,
        0 < bytes.len() <= m.remaining,
        m.payload.len() + bytes.len() <= MESSAGE_BUFFER_SIZE,
    ensures
        spec_feed(m, bytes) == (ParserModel {
            state: if bytes.len() == m.remaining {
                State::MessageChecksum
            } else {
                State::Message
            },
            remaining: (m.remaining - bytes.len()) as u16,
            payload: m.payload + bytes,
            ..m
        }),
        spec_frames(m, bytes) == Seq::<Frame>::empty(),
    decreases bytes.len(),
{
    if bytes.len() == 1 {
        lemma_feed_one(m, bytes[0]);
        assert(bytes =~= seq![bytes[0]]);
        assert(m.payload.push(bytes[0]) =~= m.payload + bytes);
    } else {
        let before = bytes.drop_last();
        lemma_feed_payload(m, before);
        assert((m.payload + before).push(bytes.last()) =~= m.payload + bytes);
    }
}

/// What a parser that waits for a frame holds after it has read the header
/// of a frame: the length and the topic that the header announces, and no
/// payload yet.
proof fn lemma_feed_header(m: ParserModel, len: u16, topic: u16)
    requires
        m.state == State::Sync,
    ensures
        spec_feed(m, spec_header(len, topic)) == (ParserModel {
            state: if len == 0 {
                State::MessageChecksum
            } else {
                State::Message
            },
            remaining: len,
            topic: topic,
            payload: Seq::<u8>::empty(),
        }),
        spec_frames(m, spec_header(len, topic)) == Seq::<Frame>::empty(),
{
    let h = spec_header(len, topic);
    assert(h.len() == 7);
    let h1 = h.subrange(0, 1);
    let h2 = h.subrange(0, 2);
    let h3 = h.subrange(0, 3);
    let h4 = h.subrange(0, 4);
    let h5 = h.subrange(0, 5);
    let h6 = h.subrange(0, 6);
    assert(h1.drop_last() =~= Seq::<u8>::empty());
    assert(h2.drop_last() =~= h1);
    assert(h3.drop_last() =~= h2);
    assert(h4.drop_last() =~= h3);
    assert(h5.drop_last() =~= h4);
    assert(h6.drop_last() =~= h5);
    assert(h.drop_last() =~= h6);
    let m0 = spec_feed(m, h1.drop_last());
    assert(m0 == m);
    assert(spec_frames(m, h1.drop_last()) =~= Seq::<Frame>::empty());
    let m1 = spec_feed(m, h1);
    assert(m1 == spec_step(m0, h[0]));
    let m2 = spec_feed(m, h2);
    assert(m2 == spec_step(m1, h[1]));
    let m3 = spec_feed(m, h3);
    assert(m3 == spec_step(m2, h[2]));
    let m4 = spec_feed(m, h4);
    assert(m4 == spec_step(m3, h[3]));
    let m5 = spec_feed(m, h5);
    assert(m5 == spec_step(m4, h[4]));
    let m6 = spec_feed(m, h6);
    assert(m6 == spec_step(m5, h[5]));
    let m7 = spec_feed(m, h);
    assert(m7 == spec_step(m6, h[6]));
    assert(h[2] == (len % 256) as u8 && h[3] == (len / 256) as u8);
    assert(h[5] == (topic % 256) as u8 && h[6] == (topic / 256) as u8);
    assert(m4.remaining == len);
    assert(m7.topic == topic);
    assert(spec_frames(m, h1) =~= Seq::<Frame>::empty());
    assert(spec_frames(m, h2) =~= Seq::<Frame>::empty());
    assert(spec_frames(m, h3) =~= Seq::<Frame>::empty());
    assert(spec_frames(m, h4) =~= Seq::<Frame>::empty());
    assert(spec_frames(m, h5) =~= Seq::<Frame>::empty());
    assert(spec_frames(m, h6) =~= Seq::<Frame>::empty());
    assert(spec_frames(m, h) =~= Seq::<Frame>::empty());
}

/// Round trip: a parser that waits for a frame, fed the bytes of the frame
/// that carries `payload` on `topic`, completes exactly that frame, with the
/// frame's last byte, and waits for the next frame afterwards.
///
/// This holds of every payload that fits the parser's buffer.
pub proof fn lemma_round_trip(m: ParserModel, topic: u16, payload: Seq<u8>)
    requires
        m.state == State::Sync,
        payload.len() <= MESSAGE_BUFFER_SIZE,
    ensures
        spec_feed(m, spec_frame(topic, payload)) == (ParserModel {
            state: State::Sync,
            remaining: 0,
            topic: topic,
            payload: payload,
        }),
        spec_frames(m, spec_frame(topic, payload)) == seq![
            Frame { topic_id: topic, payload: payload },
        ],
        spec_frames(m, spec_frame(topic, payload).drop_last()) == Seq::<Frame>::empty(),
{
    let len = payload.len() as u16;
    let header = spec_header(len, topic);
    let check = spec_checksum8(le_bytes_u16(topic) + payload);
    let frame = spec_frame(topic, payload);
    lemma_feed_header(m, len, topic);
    let after_header = spec_feed(m, header);
    let body = header + payload;
    let expected = Frame { topic_id: topic, payload: payload };
    if payload.len() == 0 {
        assert(body =~= header);
        assert(Seq::<u8>::empty() =~= payload);
    } else {
        lemma_feed_payload(after_header, payload);
        lemma_feed_concat(m, header, payload);
        assert(Seq::<u8>::empty() + payload =~= payload);
        assert(Seq::<Frame>::empty() + Seq::<Frame>::empty() =~= Seq::<Frame>::empty());
    }
    let after_body = spec_feed(m, body);
    assert(after_body.state == State::MessageChecksum);
    assert(after_body.payload == payload);
    assert(after_body.topic == topic);
    assert(after_body.remaining == 0);
    assert(spec_frames(m, body) == Seq::<Frame>::empty());
    assert(frame =~= body + seq![check]);
    assert(frame.drop_last() =~= body);
    lemma_feed_concat(m, body, seq![check]);
    lemma_feed_one(after_body, check);
    assert(Seq::<Frame>::empty() + seq![expected] =~= seq![expected]);
}

/// The frame of an empty payload has exactly eight bytes, seven of header
/// and one of checksum, and a parser that waits for a frame reads it back
/// as one frame without payload.
pub proof fn lemma_empty_frame(m: ParserModel, topic: u16)
    requires
        m.state == State::Sync,
    ensures
        spec_frame(topic, Seq::<u8>::empty()).len() == 8,
        spec_frame(topic, Seq::<u8>::empty()) == spec_header(0, topic) + seq![
            spec_checksum8(le_bytes_u16(topic)),
        ],
        spec_frames(m, spec_frame(topic, Seq::<u8>::empty())) == seq![
            Frame { topic_id: topic, payload: Seq::<u8>::empty() },
        ],
        spec_feed(m, spec_frame(topic, Seq::<u8>::empty())).payload.len() == 0,
        spec_feed(m, spec_frame(topic, Seq::<u8>::empty())).state == State::Sync,
{
    lemma_round_trip(m, topic, Seq::<u8>::empty());
    assert(le_bytes_u16(topic) + Seq::<u8>::empty() =~= le_bytes_u16(topic));
    assert(spec_frame(topic, Seq::<u8>::empty()) =~= spec_header(0, topic) + seq![
        spec_checksum8(le_bytes_u16(topic)),
    ]);
}

/// Bytes among which the sync byte does not occur leave a parser that
/// waits for a frame as it is, and complete no frame.
pub proof fn lemma_noise_is_dropped(m: ParserModel, noise: Seq<u8>)
    requires
        m.state == State::Sync,
        forall|i: int| 0 <= i < noise.len() ==> noise[i] != SYNC_BYTE,
    ensures
        spec_feed(m, noise) == m,
        spec_frames(m, noise) == Seq::<Frame>::empty(),
    decreases noise.len(),
{
    if noise.len() > 0 {
        lemma_noise_is_dropped(m, noise.drop_last());
    }
}

/// Resynchronisation: whatever came before, once the parser waits for a
/// frame again, the next frame on the line is parsed: the frames completed
/// are those that the earlier bytes completed, and then this one.
pub proof fn lemma_frame_after_any_prefix(
    m: ParserModel,
    prefix: Seq<u8>,
    topic: u16,
    payload: Seq<u8>,
)
    requires
        spec_feed(m, prefix).state == State::Sync,
        payload.len() <= MESSAGE_BUFFER_SIZE,
    ensures
        spec_feed(m, prefix + spec_frame(topic, payload)) == (ParserModel {
            state: State::Sync,
            remaining: 0,
            topic: topic,
            payload: payload,
        }),
        spec_frames(m, prefix + spec_frame(topic, payload)) == spec_frames(m, prefix).push(
            Frame { topic_id: topic, payload: payload },
        ),
{
    lemma_feed_concat(m, prefix, spec_frame(topic, payload));
    lemma_round_trip(spec_feed(m, prefix), topic, payload);
    assert(spec_frames(m, prefix) + seq![Frame { topic_id: topic, payload: payload }]
        =~= spec_frames(m, prefix).push(Frame { topic_id: topic, payload: payload }));
}

/// Resynchronisation after noise: a parser that waits for a frame drops
/// noise among which the sync byte does not occur, and parses the frame
/// that follows it.
pub proof fn lemma_resync_after_noise(
    m: ParserModel,
    noise: Seq<u8>,
    topic: u16,
    payload: Seq<u8>,
)
    requires
        m.state == State::Sync,
        forall|i: int| 0 <= i < noise.len() ==> noise[i] != SYNC_BYTE,
        payload.len() <= MESSAGE_BUFFER_SIZE,
    ensures
        spec_feed(m, noise + spec_frame(topic, payload)) == (ParserModel {
            state: State::Sync,
            remaining: 0,
            topic: topic,
            payload: payload,
        }),
        spec_frames(m, noise + spec_frame(topic, payload)) == seq![
            Frame { topic_id: topic, payload: payload },
        ],
{
    lemma_noise_is_dropped(m, noise);
    lemma_frame_after_any_prefix(m, noise, topic, payload);
    assert(Seq::<Frame>::empty().push(Frame { topic_id: topic, payload: payload }) =~= seq![
        Frame { topic_id: topic, payload: payload },
    ]);
}

/// The frame parser: the state, the payload buffer and the counters of the
/// frame that is being read.
pub struct FrameParser {
    state: State,
    message_in: [u8; 1024],
    index: usize,
    bytes: u16,
    topic: u16,
}

impl FrameParser {
    /// What holds of every parser: the model is well-formed.
    pub closed spec fn wf(&self) -> bool {
        &&& self.index <= MESSAGE_BUFFER_SIZE
        &&& model_wf(self@)
    }

    /// The parser as a mathematical value.
    pub closed spec fn view(&self) -> ParserModel {
        ParserModel {
            state: self.state,
            remaining: self.bytes,
            topic: self.topic,
            payload: self.message_in@.subrange(0, self.index as int),
        }
    }

    /// A parser that waits for a frame and has read nothing.
    pub fn new() -> (p: FrameParser)
        ensures
            p.wf(),
            p@ == (ParserModel {
                state: State::Sync,
                remaining: 0,
                topic: 0,
                payload: Seq::<u8>::empty(),
            }),
    {
        let p = FrameParser {
            state: State::Sync,
            message_in: [0u8; 1024],
            index: 0,
            bytes: 0,
            topic: 0,
        };
        assert(p.message_in@.subrange(0, 0) =~= Seq::<u8>::empty());
        p
    }

    /// Every parser that is well-formed has a well-formed model.
    pub proof fn lemma_wf_model(&self)
        requires
            self.wf(),
        ensures
            model_wf(self@),
    {
    }

    /// What the parser waits for next.
    pub fn state(&self) -> (s: State)
        ensures
            s == self@.state,
    {
        self.state
    }

    /// The topic id of the current frame, as far as it has been read.
    pub fn topic(&self) -> (t: u16)
        ensures
            t == self@.topic,
    {
        self.topic
    }

    /// The payload bytes of the current frame that have been read.
    pub fn payload(&self) -> (p: &[u8])
        requires
            self.wf(),
        ensures
            p@ == self@.payload,
    {
        vstd::slice::slice_subrange(self.message_in.as_slice(), 0, self.index)
    }

    /// Takes one byte. Returns whether the byte completed a frame; the
    /// frame's topic and payload can then be read from the parser until the
    /// next frame begins.
    pub fn step(&mut self, data: u8) -> (completed: bool)
        requires
            old(self).wf(),
        ensures
            final(self).wf(),
            final(self)@ == spec_step(old(self)@, data),
            completed == spec_completed(old(self)@).is_some(),
            completed ==> final(self)@.topic == old(self)@.topic && final(self)@.payload == old(
                self,
            )@.payload,
    {
        let mut completed: bool = false;
        match self.state {
            State::Sync => {
                if data == SYNC_BYTE {
                    self.state = State::ProtocolVersion;
                }
            },
            State::ProtocolVersion => {
                self.state = if data == PROTOCOL_VERSION {
                    State::SizeLsb
                } else {
                    State::Sync
                };
            },
            State::SizeLsb => {
                self.bytes = data as u16;
                self.index = 0;
                self.state = State::SizeMsb;
                assert(self.message_in@.subrange(0, 0) =~= Seq::<u8>::empty());
            },
            State::SizeMsb => {
                self.bytes = join_u16(self.bytes as u8, data);
                self.state = State::SizeChecksum;
            },
            State::SizeChecksum => {
                self.state = State::TopicIdLsb;
            },
            State::TopicIdLsb => {
                self.topic = data as u16;
                self.state = State::TopicIdMsb;
            },
            State::TopicIdMsb => {
                self.topic = join_u16(self.topic as u8, data);
                self.state = if self.bytes == 0 {
                    State::MessageChecksum
                } else {
                    State::Message
                };
            },
            State::Message => {
                if self.index >= MESSAGE_BUFFER_SIZE {
                    self.state = State::Sync;
                } else {
                    self.message_in[self.index] = data;
                    assert(self.message_in@.subrange(0, self.index + 1) =~= old(
                        self,
                    ).message_in@.subrange(0, self.index as int).push(data));
                    self.index = self.index + 1;
                    self.bytes = self.bytes - 1;
                    if self.bytes == 0 {
                        self.state = State::MessageChecksum;
                    }
                }
            },
            State::MessageChecksum => {
                completed = true;
                self.state = State::Sync;
            },
        }
        completed
    }
}

} // verus!
