//! Publishers and subscribers: the two ends of a topic on the node.

use crate::msgs::rosserial_msgs::TopicInfo;
use crate::msgs::Message;
use vstd::prelude::*;
use vstd::std_specs::convert::FromSpecImpl;

verus! {

/// A registered outgoing topic.
#[derive(Clone, Copy)]
pub struct Publisher {
    pub topic: &'static str,
    pub id: u16,
    pub message_type: &'static str,
    pub md5sum: &'static str,
}

impl Publisher {
    /// A publisher with these fields.
    pub fn new(
        topic: &'static str,
        id: u16,
        message_type: &'static str,
        md5sum: &'static str,
    ) -> (p: Publisher)
        ensures
            p.topic == topic,
            p.id == id,
            p.message_type == message_type,
            p.md5sum == md5sum,
    {
        Publisher { topic, id, message_type, md5sum }
    }

    /// The announcement of this publisher.
    pub open spec fn announcement(self) -> TopicInfo {
        TopicInfo {
            id: self.id,
            name: self.topic,
            message_type: self.message_type,
            md5: self.md5sum,
            buffer_size: crate::msgs::rosserial_msgs::ADVERTISED_BUFFER_SIZE,
        }
    }
}

impl From<Publisher> for TopicInfo {
    /// The announcement of a publisher: its id, topic, message type and
    /// checksum, and the node's inbound buffer size.
    fn from(p: Publisher) -> (ti: TopicInfo) {
        TopicInfo {
            id: p.id,
            name: p.topic,
            message_type: p.message_type,
            md5: p.md5sum,
            buffer_size: crate::msgs::rosserial_msgs::ADVERTISED_BUFFER_SIZE,
        }
    }
}

impl FromSpecImpl<Publisher> for TopicInfo {
    open spec fn obeys_from_spec() -> bool {
        true
    }

    open spec fn from_spec(p: Publisher) -> TopicInfo {
        p.announcement()
    }
}

/// What a topic says of itself when it is announced to the host.
pub trait TopicBase {
    /// The characters of the topic's name.
    spec fn topic_chars(&self) -> Seq<char>;

    /// The characters of the name of the topic's message type.
    spec fn message_type_chars(&self) -> Seq<char>;

    /// The characters of the checksum of the message type's schema.
    spec fn md5sum_chars(&self) -> Seq<char>;

    fn topic(&self) -> (r: &'static str)
        ensures
            r@ == self.topic_chars(),
    ;

    fn message_type(&self) -> (r: &'static str)
        ensures
            r@ == self.message_type_chars(),
    ;

    fn md5sum(&self) -> (r: &'static str)
        ensures
            r@ == self.md5sum_chars(),
    ;
}

/// What the node hands the payload of a completed frame to.
pub trait MessageHandler {
    /// Takes the payload of one frame.
    fn handle_message(&mut self, data: &[u8]);
}

/// The announcement of `topic`, with the id still to be assigned.
pub fn describe<T: TopicBase>(topic: &T) -> (info: TopicInfo)
    ensures
        info.id == 0,
        info.name@ == topic.topic_chars(),
        info.message_type@ == topic.message_type_chars(),
        info.md5@ == topic.md5sum_chars(),
        info.buffer_size == crate::msgs::rosserial_msgs::ADVERTISED_BUFFER_SIZE,
{
    TopicInfo {
        id: 0,
        name: topic.topic(),
        message_type: topic.message_type(),
        md5: topic.md5sum(),
        buffer_size: crate::msgs::rosserial_msgs::ADVERTISED_BUFFER_SIZE,
    }
}

/// An incoming topic: each payload is decoded into a message of type `Msg`
/// and handed to the callback.
pub struct Subscriber<Msg, F: FnMut(Msg)> {
    topic: &'static str,
    message_type: &'static str,
    md5sum: &'static str,
    callback: Option<F>,
    phantom_msg: core::marker::PhantomData<Msg>,
}

impl<Msg, F: FnMut(Msg)> Subscriber<Msg, F> {
    /// What holds of every subscriber: its callback takes every message.
    #[verifier::type_invariant]
    spec fn accepts_all(&self) -> bool {
        self.callback matches Some(f) ==> forall|m: Msg| call_requires(f, (m,))
    }

    /// Whether the subscriber still holds its callback. It loses the
    /// callback only where the callback does not return.
    pub closed spec fn armed(&self) -> bool {
        self.callback is Some
    }

    /// Whether the callback may have run on `msg`: what the callback
    /// promises of a call holds of `msg`.
    pub closed spec fn ran_on(&self, msg: Msg) -> bool {
        self.callback matches Some(f) && call_ensures(f, (msg,), ())
    }
}

impl<Msg: Message, F: FnMut(Msg)> Subscriber<Msg, F> {
    /// A subscriber to `topic` that hands each message to `callback`. The
    /// callback must take every message.
    pub fn new(topic: &'static str, callback: F) -> (s: Self)
        requires
            forall|m: Msg| call_requires(callback, (m,)),
        ensures
            s.topic_chars() == topic@,
            s.message_type_chars() == Msg::name_chars(),
            s.md5sum_chars() == Msg::md5_chars(),
            s.armed(),
    {
        Subscriber {
            topic,
            message_type: Msg::name(),
            md5sum: Msg::md5(),
            callback: Some(callback),
            phantom_msg: core::marker::PhantomData,
        }
    }
}

impl<Msg: Message + Default, F: FnMut(Msg)> MessageHandler for Subscriber<Msg, F> {
    /// Decodes `data` into a fresh message and hands it to the callback:
    /// the callback has run on a message that some fresh message became by
    /// decoding `data`.
    fn handle_message(&mut self, data: &[u8])
        ensures
            final(self).topic_chars() == old(self).topic_chars(),
            final(self).message_type_chars() == old(self).message_type_chars(),
            final(self).md5sum_chars() == old(self).md5sum_chars(),
            old(self).armed() ==> final(self).armed() && exists|fresh: Msg, msg: Msg|
                msg.wire() == fresh.wire_after(data@) && old(self).ran_on(msg),
    {
        proof {
            use_type_invariant(&*self);
        }
        let mut held: Option<F> = None;
        core::mem::swap(&mut held, &mut self.callback);
        if let Some(mut callback) = held {
            let mut msg = Msg::default();
            let ghost fresh = msg;
            msg.deserialize(data);
            let ghost decoded = msg;
            callback(msg);
            assert(decoded.wire() == fresh.wire_after(data@) && old(self).ran_on(decoded));
            self.callback = Some(callback);
        }
    }
}

impl<Msg: Message, F: FnMut(Msg)> TopicBase for Subscriber<Msg, F> {
    closed spec fn topic_chars(&self) -> Seq<char> {
        self.topic@
    }

    closed spec fn message_type_chars(&self) -> Seq<char> {
        self.message_type@
    }

    closed spec fn md5sum_chars(&self) -> Seq<char> {
        self.md5sum@
    }

    fn topic(&self) -> (r: &'static str) {
        self.topic
    }

    fn message_type(&self) -> (r: &'static str) {
        self.message_type
    }

    fn md5sum(&self) -> (r: &'static str) {
        self.md5sum
    }
}

} // verus!
