//! The node handle: the registry of topics, the frame parser, and the
//! handshake with the host.

use super::frame::{encode_frame, frame_fits, spec_frame};
use super::hardware::{HardwareInterface, Link};
use super::parser::{
    lemma_frame_after_any_prefix, spec_completed, spec_feed, spec_frames, spec_step, Frame,
    FrameParser, ParserModel, State,
};
use super::topics::{MessageHandler, Publisher};
use crate::msgs::rosserial_msgs::{
    TopicInfo, ADVERTISED_BUFFER_SIZE, FIRST_USER_TOPIC_ID, TOPICINFO_ID_PUBLISHER,
    TOPICINFO_ID_SUBSCRIBER, TOPICINFO_ID_TIME, TOPICINFO_ID_TX_STOP,
};
use crate::msgs::std_msgs;
use crate::msgs::Message;
use vstd::prelude::*;

verus! {

/// What `advertise` returns: the slot of the publisher in the registry.
pub type PublisherHandle = usize;

/// The number of publishers, and of subscribers, that a node can hold.
pub const MAX_PUB_SUBS: usize = 256;

/// The size of the buffer in which an outgoing frame is built. A message
/// whose frame is longer is not sent.
pub const MESSAGE_OUT_SIZE: usize = 256;

/// Why a registration failed.
#[derive(Clone, Copy, Debug, PartialEq, Eq, Structural)]
pub enum NodeHandleError {
    /// Every publisher slot is occupied.
    MaxPublishersReached,
    /// Every subscriber slot is occupied.
    MaxSubscribersReached,
}

/// Whether `slot` is the first free slot of `table`.
pub open spec fn is_first_free<T>(table: Seq<Option<T>>, slot: int) -> bool {
    &&& 0 <= slot < table.len()
    &&& table[slot] is None
    &&& forall|j: int| 0 <= j < slot ==> table[j] is Some
}

/// Whether no slot of `table` is free.
pub open spec fn is_full<T>(table: Seq<Option<T>>) -> bool {
    forall|j: int| 0 <= j < table.len() ==> table[j] is Some
}

/// Whether the occupied slots of `table` are exactly its first `count`
/// slots, as they are after `count` registrations into an empty table.
pub open spec fn occupied_prefix<T>(table: Seq<Option<T>>, count: int) -> bool {
    &&& 0 <= count <= table.len()
    &&& forall|j: int| 0 <= j < count ==> table[j] is Some
    &&& forall|j: int| count <= j < table.len() ==> table[j] is None
}

/// Registrations fill a table in order. Where exactly the first `count`
/// slots are occupied, the first free slot is `count` and no other, and a
/// registration there leaves exactly the first `count + 1` slots occupied;
/// where `count` is the capacity, the table is full. So into an empty table
/// of capacity `n`, the first `n` registrations succeed with the handles 0,
/// 1, ..., `n - 1`, each larger than the one before, and the next finds the
/// table full.
pub proof fn lemma_registration_order<T>(table: Seq<Option<T>>, count: int, slot: int, entry: T)
    requires
        occupied_prefix(table, count),
    ensures
        count < table.len() ==> (is_first_free(table, slot) <==> slot == count),
        count < table.len() ==> !is_full(table),
        count < table.len() ==> occupied_prefix(table.update(count, Some(entry)), count + 1),
        count == table.len() ==> is_full(table) && !is_first_free(table, slot),
{
    if count < table.len() {
        assert(table[count] is None);
        if is_first_free(table, slot) && slot != count {
            if slot < count {
                assert(table[slot] is Some);
            } else {
                assert(table[count] is Some);
            }
        }
    }
}

/// The bytes that go out for a message with encoding `wire` on topic
/// `topic_id`: its frame, or nothing where the frame does not fit the
/// buffer in which frames are built.
pub open spec fn spec_sent_for(topic_id: u16, wire: Seq<u8>) -> Seq<u8> {
    if frame_fits(wire.len(), MESSAGE_OUT_SIZE as nat) {
        spec_frame(topic_id, wire)
    } else {
        Seq::empty()
    }
}

/// The bytes that announce the topics of `table` on the control topic
/// `control_id`: for each occupied slot, in slot order, what goes out for
/// its announcement.
pub open spec fn spec_announcements(control_id: u16, table: Seq<Option<TopicInfo>>) -> Seq<u8>
    decreases table.len(),
{
    if table.len() == 0 {
        Seq::empty()
    } else {
        spec_announcements(control_id, table.drop_last()) + match table.last() {
            Some(info) => spec_sent_for(control_id, info.wire()),
            None => Seq::empty(),
        }
    }
}

/// The announcements of the publishers of `table`, slot by slot.
pub open spec fn publisher_infos(table: Seq<Option<Publisher>>) -> Seq<Option<TopicInfo>> {
    Seq::new(
        table.len(),
        |i: int|
            match table[i] {
                Some(p) => Some(p.announcement()),
                None => None,
            },
    )
}

/// The encoding of the time message that a time request carries.
pub open spec fn spec_time_request() -> Seq<u8> {
    seq![0u8, 0u8, 0u8, 0u8, 0u8, 0u8, 0u8, 0u8]
}

/// The bytes of the handshake: one time request, then one announcement for
/// each publisher, then one for each subscriber, in slot order.
pub open spec fn spec_handshake(
    publishers: Seq<Option<Publisher>>,
    subscribers: Seq<Option<TopicInfo>>,
) -> Seq<u8> {
    spec_frame(TOPICINFO_ID_TIME, spec_time_request()) + spec_announcements(
        TOPICINFO_ID_PUBLISHER,
        publisher_infos(publishers),
    ) + spec_announcements(TOPICINFO_ID_SUBSCRIBER, subscribers)
}

/// The frames that announce the topics of `table` on the control topic
/// `control_id`: one for each occupied slot, in slot order.
pub open spec fn spec_announcement_frames(
    control_id: u16,
    table: Seq<Option<TopicInfo>>,
) -> Seq<Frame>
    decreases table.len(),
{
    if table.len() == 0 {
        Seq::empty()
    } else {
        match table.last() {
            Some(info) => spec_announcement_frames(control_id, table.drop_last()).push(
                Frame { topic_id: control_id, payload: info.wire() },
            ),
            None => spec_announcement_frames(control_id, table.drop_last()),
        }
    }
}

/// Whether the frame of every announcement of `table` fits the buffer in
/// which frames are built.
pub open spec fn announcements_fit(table: Seq<Option<TopicInfo>>) -> bool {
    forall|i: int|
        0 <= i < table.len() ==> (#[trigger] table[i] matches Some(info) ==> frame_fits(
            info.wire().len(),
            MESSAGE_OUT_SIZE as nat,
        ))
}

/// A host that has read `prefix` and waits for a frame, and then reads the
/// announcements of `table`, reads one frame for each occupied slot, in slot
/// order, and waits for a frame again.
pub proof fn lemma_announcements_parse(
    m: ParserModel,
    prefix: Seq<u8>,
    control_id: u16,
    table: Seq<Option<TopicInfo>>,
)
    requires
        spec_feed(m, prefix).state == State::Sync,
        announcements_fit(table),
    ensures
        spec_feed(m, prefix + spec_announcements(control_id, table)).state == State::Sync,
        spec_frames(m, prefix + spec_announcements(control_id, table)) == spec_frames(m, prefix)
            + spec_announcement_frames(control_id, table),
    decreases table.len(),
{
    if table.len() == 0 {
        assert(prefix + spec_announcements(control_id, table) =~= prefix);
        assert(spec_frames(m, prefix) + spec_announcement_frames(control_id, table)
            =~= spec_frames(m, prefix));
    } else {
        let before = table.drop_last();
        assert(announcements_fit(before)) by {
            assert forall|i: int| 0 <= i < before.len() implies (#[trigger] before[i] matches Some(
                info,
            ) ==> frame_fits(info.wire().len(), MESSAGE_OUT_SIZE as nat)) by {
                assert(before[i] == table[i]);
            }
        }
        lemma_announcements_parse(m, prefix, control_id, before);
        let head = prefix + spec_announcements(control_id, before);
        match table.last() {
            Some(info) => {
                assert(table[table.len() - 1] == Some(info));
                let frame = spec_frame(control_id, info.wire());
                assert(prefix + spec_announcements(control_id, table) =~= head + frame);
                lemma_frame_after_any_prefix(m, head, control_id, info.wire());
                assert(spec_frames(m, prefix) + spec_announcement_frames(control_id, table) =~= (
                spec_frames(m, prefix) + spec_announcement_frames(control_id, before)).push(
                    Frame { topic_id: control_id, payload: info.wire() },
                ));
            },
            None => {
                assert(prefix + spec_announcements(control_id, table) =~= head);
            },
        }
    }
}

/// The handshake, as the host reads it: exactly one time request, then
/// exactly one announcement for each registered publisher, then exactly one
/// for each registered subscriber, each group in slot order, which is the
/// order of registration. Afterwards the host waits for a frame again.
///
/// This holds where the frame of every announcement fits the buffer in
/// which frames are built; an announcement whose frame does not fit is not
/// sent.
pub proof fn lemma_handshake_parses(
    m: ParserModel,
    publishers: Seq<Option<Publisher>>,
    subscribers: Seq<Option<TopicInfo>>,
)
    requires
        m.state == State::Sync,
        announcements_fit(publisher_infos(publishers)),
        announcements_fit(subscribers),
    ensures
        spec_feed(m, spec_handshake(publishers, subscribers)).state == State::Sync,
        spec_frames(m, spec_handshake(publishers, subscribers)) == seq![
            Frame { topic_id: TOPICINFO_ID_TIME, payload: spec_time_request() },
        ] + spec_announcement_frames(TOPICINFO_ID_PUBLISHER, publisher_infos(publishers))
            + spec_announcement_frames(TOPICINFO_ID_SUBSCRIBER, subscribers),
{
    let time = spec_frame(TOPICINFO_ID_TIME, spec_time_request());
    let none = Seq::<u8>::empty();
    assert(none + time =~= time);
    assert(spec_feed(m, none) == m);
    lemma_frame_after_any_prefix(m, none, TOPICINFO_ID_TIME, spec_time_request());
    assert(spec_frames(m, none) =~= Seq::<Frame>::empty());
    assert(Seq::<Frame>::empty().push(
        Frame { topic_id: TOPICINFO_ID_TIME, payload: spec_time_request() },
    ) =~= seq![Frame { topic_id: TOPICINFO_ID_TIME, payload: spec_time_request() }]);
    lemma_announcements_parse(m, time, TOPICINFO_ID_PUBLISHER, publisher_infos(publishers));
    let mid = time + spec_announcements(TOPICINFO_ID_PUBLISHER, publisher_infos(publishers));
    lemma_announcements_parse(m, mid, TOPICINFO_ID_SUBSCRIBER, subscribers);
}

/// What the node does with a completed frame.
pub enum Dispatch {
    /// The host asks for the topics: the node answers with the handshake.
    Negotiate,
    /// A time reply: nothing is done with it.
    TimeSync,
    /// The host asks the node to stop publishing.
    Stop,
    /// The payload goes to the subscriber at `slot`.
    Deliver { slot: int },
    /// Nothing: a reserved id without a meaning here, or a user topic to
    /// which nobody subscribed.
    Ignore,
}

/// What the node does with a frame on topic `topic_id`, given its
/// subscribers.
pub open spec fn spec_dispatch(topic_id: u16, subscribers: Seq<Option<TopicInfo>>) -> Dispatch {
    if topic_id == TOPICINFO_ID_PUBLISHER {
        Dispatch::Negotiate
    } else if topic_id == TOPICINFO_ID_TIME {
        Dispatch::TimeSync
    } else if topic_id == TOPICINFO_ID_TX_STOP {
        Dispatch::Stop
    } else if topic_id >= FIRST_USER_TOPIC_ID && topic_id - FIRST_USER_TOPIC_ID
        < subscribers.len() && subscribers[topic_id - FIRST_USER_TOPIC_ID] is Some {
        Dispatch::Deliver { slot: topic_id - FIRST_USER_TOPIC_ID }
    } else {
        Dispatch::Ignore
    }
}

/// The node: its parser, its topics, and whether the host has completed the
/// handshake.
pub struct NodeHandle<'a> {
    parser: FrameParser,
    configured: bool,
    publishers: [Option<Publisher>; 256],
    subscribers: [Option<&'a mut (dyn MessageHandler + 'a)>; 256],
    subscriber_info: [Option<TopicInfo>; 256],
    inboxes: Ghost<Seq<Seq<Seq<u8>>>>,
}

/// A publisher table in which every slot is free.
fn empty_publishers() -> (table: [Option<Publisher>; 256])
    ensures
        forall|i: int| 0 <= i < MAX_PUB_SUBS ==> table@[i] is None,
{
    let table: [Option<Publisher>; 256] = [None; 256];
    assert(table == vstd::array::spec_array_fill_for_copy_type::<Option<Publisher>, 256>(None));
    table
}

/// A table of announcements in which every slot is free.
fn empty_announcements() -> (table: [Option<TopicInfo>; 256])
    ensures
        forall|i: int| 0 <= i < MAX_PUB_SUBS ==> table@[i] is None,
{
    let table: [Option<TopicInfo>; 256] = [None; 256];
    assert(table == vstd::array::spec_array_fill_for_copy_type::<Option<TopicInfo>, 256>(None));
    table
}

/// A handler table in which every slot is free.
fn empty_handlers<'a>() -> (table: [Option<&'a mut (dyn MessageHandler + 'a)>; 256])
    ensures
        forall|i: int| 0 <= i < MAX_PUB_SUBS ==> table@[i] is None,
{
    [
        None, None, None, None, None, None, None, None,
        None, None, None, None, None, None, None, None,
        None, None, None, None, None, None, None, None,
        None, None, None, None, None, None, None, None,
        None, None, None, None, None, None, None, None,
        None, None, None, None, None, None, None, None,
        None, None, None, None, None, None, None, None,
        None, None, None, None, None, None, None, None,
        None, None, None, None, None, None, None, None,
        None, None, None, None, None, None, None, None,
        None, None, None, None, None, None, None, None,
        None, None, None, None, None, None, None, None,
        None, None, None, None, None, None, None, None,
        None, None, None, None, None, None, None, None,
        None, None, None, None, None, None, None, None,
        None, None, None, None, None, None, None, None,
        None, None, None, None, None, None, None, None,
        None, None, None, None, None, None, None, None,
        None, None, None, None, None, None, None, None,
        None, None, None, None, None, None, None, None,
        None, None, None, None, None, None, None, None,
        None, None, None, None, None, None, None, None,
        None, None, None, None, None, None, None, None,
        None, None, None, None, None, None, None, None,
        None, None, None, None, None, None, None, None,
        None, None, None, None, None, None, None, None,
        None, None, None, None, None, None, None, None,
        None, None, None, None, None, None, None, None,
        None, None, None, None, None, None, None, None,
        None, None, None, None, None, None, None, None,
        None, None, None, None, None, None, None, None,
        None, None, None, None, None, None, None, None,
    ]
}

impl<'a> Default for NodeHandle<'a> {
    /// A node without topics that waits for a frame and is not configured.
    fn default() -> (node: Self)
        ensures
            node.wf(),
            !node.is_configured(),
            node.parser_model() == (ParserModel {
                state: State::Sync,
                remaining: 0,
                topic: 0,
                payload: Seq::<u8>::empty(),
            }),
            node.publisher_table().len() == MAX_PUB_SUBS,
            node.subscriber_table().len() == MAX_PUB_SUBS,
            occupied_prefix(node.publisher_table(), 0),
            occupied_prefix(node.subscriber_table(), 0),
            forall|slot: int| node.inbox(slot) == Seq::<Seq<u8>>::empty(),
    {
        NodeHandle {
            parser: FrameParser::new(),
            configured: false,
            publishers: empty_publishers(),
            subscribers: empty_handlers(),
            subscriber_info: empty_announcements(),
            inboxes: Ghost(Seq::new(MAX_PUB_SUBS as nat, |i: int| Seq::<Seq<u8>>::empty())),
        }
    }
}

impl<'a> NodeHandle<'a> {
    /// What holds of every node: each topic's id is its slot plus 100, each
    /// subscriber slot holds a handler exactly where it holds an
    /// announcement, and nothing was delivered to a free slot.
    pub closed spec fn wf(&self) -> bool {
        &&& self.parser.wf()
        &&& forall|i: int|
            0 <= i < MAX_PUB_SUBS ==> (#[trigger] self.publishers@[i] matches Some(p) ==> p.id == i
                + FIRST_USER_TOPIC_ID)
        &&& forall|i: int|
            0 <= i < MAX_PUB_SUBS ==> (#[trigger] self.subscriber_info@[i] matches Some(info)
                ==> info.id == i + FIRST_USER_TOPIC_ID && info.buffer_size
                == ADVERTISED_BUFFER_SIZE)
        &&& forall|i: int|
            0 <= i < MAX_PUB_SUBS ==> (#[trigger] self.subscribers@[i] is Some
                <==> self.subscriber_info@[i] is Some)
        &&& self.inboxes@.len() == MAX_PUB_SUBS
        &&& forall|i: int|
            0 <= i < MAX_PUB_SUBS ==> (#[trigger] self.subscriber_info@[i] is None
                ==> self.inboxes@[i] == Seq::<Seq<u8>>::empty())
    }

    /// The parser as a mathematical value.
    pub closed spec fn parser_model(&self) -> ParserModel {
        self.parser@
    }

    /// Whether the host has completed the handshake.
    pub closed spec fn is_configured(&self) -> bool {
        self.configured
    }

    /// The publisher slots.
    pub closed spec fn publisher_table(&self) -> Seq<Option<Publisher>> {
        self.publishers@
    }

    /// The subscriber slots: the announcement of each subscriber.
    pub closed spec fn subscriber_table(&self) -> Seq<Option<TopicInfo>> {
        self.subscriber_info@
    }

    /// Every payload that was handed to the subscriber at `slot`, oldest
    /// first; nothing where the slot is free.
    pub closed spec fn inbox(&self, slot: int) -> Seq<Seq<u8>> {
        if 0 <= slot < MAX_PUB_SUBS {
            self.inboxes@[slot]
        } else {
            Seq::empty()
        }
    }

    /// The tables of a node have one slot for each possible topic, and the
    /// id of each registered topic is its slot plus 100.
    pub proof fn lemma_tables(&self)
        requires
            self.wf(),
        ensures
            self.publisher_table().len() == MAX_PUB_SUBS,
            self.subscriber_table().len() == MAX_PUB_SUBS,
            super::parser::model_wf(self.parser_model()),
            forall|i: int|
                0 <= i < MAX_PUB_SUBS ==> (#[trigger] self.publisher_table()[i] matches Some(p)
                    ==> p.id == i + FIRST_USER_TOPIC_ID),
            forall|i: int|
                0 <= i < MAX_PUB_SUBS ==> (#[trigger] self.subscriber_table()[i] matches Some(
                    info,
                ) ==> info.id == i + FIRST_USER_TOPIC_ID && info.buffer_size
                    == ADVERTISED_BUFFER_SIZE),
            forall|i: int|
                0 <= i < MAX_PUB_SUBS ==> (#[trigger] self.subscriber_table()[i] is None
                    ==> self.inbox(i) == Seq::<Seq<u8>>::empty()),
    {
        self.parser.lemma_wf_model();
    }

    /// Whether the host has completed the handshake.
    pub fn configured(&self) -> (c: bool)
        ensures
            c == self.is_configured(),
    {
        self.configured
    }

    /// What the parser waits for next.
    pub fn state(&self) -> (s: State)
        ensures
            s == self.parser_model().state,
    {
        self.parser.state()
    }

    /// The publisher at `handle`, if the slot is occupied.
    pub fn publisher(&self, handle: PublisherHandle) -> (p: Option<Publisher>)
        ensures
            p == if handle < MAX_PUB_SUBS {
                self.publisher_table()[handle as int]
            } else {
                None
            },
    {
        if handle < MAX_PUB_SUBS {
            self.publishers[handle]
        } else {
            None
        }
    }

    /// The announcement of the subscriber at `slot`, if the slot is occupied.
    pub fn subscriber_info(&self, slot: usize) -> (info: Option<TopicInfo>)
        ensures
            info == if slot < MAX_PUB_SUBS {
                self.subscriber_table()[slot as int]
            } else {
                None
            },
    {
        if slot < MAX_PUB_SUBS {
            self.subscriber_info[slot]
        } else {
            None
        }
    }

    /// Registers a publisher of `Msg` on `topic` in the first free slot and
    /// returns the slot. The publisher's id is the slot plus 100.
    ///
    /// Where no slot is free, nothing is registered and the call fails.
    pub fn advertise<Msg: Message>(&mut self, topic: &'static str) -> (r: Result<
        PublisherHandle,
        NodeHandleError,
    >)
        requires
            old(self).wf(),
        ensures
            final(self).wf(),
            final(self).parser_model() == old(self).parser_model(),
            final(self).is_configured() == old(self).is_configured(),
            final(self).subscriber_table() == old(self).subscriber_table(),
            forall|slot: int| final(self).inbox(slot) == old(self).inbox(slot),
            r is Ok <==> !is_full(old(self).publisher_table()),
            r matches Ok(handle) ==> {
                &&& is_first_free(old(self).publisher_table(), handle as int)
                &&& final(self).publisher_table()[handle as int] matches Some(p)
                &&& p.topic == topic
                &&& p.id == handle + FIRST_USER_TOPIC_ID
                &&& p.message_type@ == Msg::name_chars()
                &&& p.md5sum@ == Msg::md5_chars()
                &&& final(self).publisher_table() == old(self).publisher_table().update(
                    handle as int,
                    Some(p),
                )
            },
            r matches Err(e) ==> {
                &&& e == NodeHandleError::MaxPublishersReached
                &&& final(self).publisher_table() == old(self).publisher_table()
            },
    {
        let mut i: usize = 0;
        while i < MAX_PUB_SUBS
            invariant
                i <= MAX_PUB_SUBS,
                *self == *old(self),
                self.wf(),
                forall|j: int| 0 <= j < i ==> self.publishers@[j] is Some,
            decreases MAX_PUB_SUBS - i,
        {
            if self.publishers[i].is_none() {
                let p = Publisher::new(topic, i as u16 + FIRST_USER_TOPIC_ID, Msg::name(), Msg::md5());
                self.publishers[i] = Some(p);
                assert(self.publishers@ =~= old(self).publishers@.update(i as int, Some(p)));
                assert(forall|slot: int| self.inbox(slot) == old(self).inbox(slot));
                return Ok(i);
            }
            i = i + 1;
        }
        Err(NodeHandleError::MaxPublishersReached)
    }

    /// Registers `sub` in the first free subscriber slot, announced as
    /// `info` says, and returns the slot. The subscriber's id is the slot
    /// plus 100, whatever id `info` holds; frames with that id are handed to
    /// `sub` from then on.
    ///
    /// Where no slot is free, nothing is registered and the call fails.
    pub fn register_subscriber(
        &mut self,
        info: TopicInfo,
        sub: &'a mut (dyn MessageHandler + 'a),
    ) -> (r: Result<usize, NodeHandleError>)
        requires
            old(self).wf(),
        ensures
            final(self).wf(),
            final(self).parser_model() == old(self).parser_model(),
            final(self).is_configured() == old(self).is_configured(),
            final(self).publisher_table() == old(self).publisher_table(),
            r is Ok <==> !is_full(old(self).subscriber_table()),
            r matches Ok(slot) ==> {
                &&& is_first_free(old(self).subscriber_table(), slot as int)
                &&& final(self).subscriber_table() == old(self).subscriber_table().update(
                    slot as int,
                    Some(
                        TopicInfo {
                            id: (slot + FIRST_USER_TOPIC_ID) as u16,
                            buffer_size: ADVERTISED_BUFFER_SIZE,
                            ..info
                        },
                    ),
                )
            },
            r matches Err(e) ==> {
                &&& e == NodeHandleError::MaxSubscribersReached
                &&& final(self).subscriber_table() == old(self).subscriber_table()
            },
            forall|slot: int| final(self).inbox(slot) == old(self).inbox(slot),
    {
        let mut i: usize = 0;
        while i < MAX_PUB_SUBS
            invariant
                i <= MAX_PUB_SUBS,
                *self == *old(self),
                self.wf(),
                forall|j: int| 0 <= j < i ==> self.subscriber_info@[j] is Some,
            decreases MAX_PUB_SUBS - i,
        {
            if self.subscribers[i].is_none() {
                let mut ti = info;
                ti.id = i as u16 + FIRST_USER_TOPIC_ID;
                ti.buffer_size = ADVERTISED_BUFFER_SIZE;
                self.subscriber_info[i] = Some(ti);
                let entry = Some(sub);
                self.subscribers[i] = entry;
                assert(self.subscriber_info@ =~= old(self).subscriber_info@.update(
                    i as int,
                    Some(ti),
                ));
                return Ok(i);
            }
            i = i + 1;
        }
        Err(NodeHandleError::MaxSubscribersReached)
    }

    /// What a byte does to the node: the parser takes it, and where it
    /// completes a frame, the frame is dispatched. `pre` and `post` are the
    /// node before and after, `sent_before` and `sent_after` what the
    /// hardware had sent before and after.
    pub open spec fn byte_effect(
        pre: Self,
        data: u8,
        post: Self,
        sent_before: Seq<u8>,
        sent_after: Seq<u8>,
    ) -> bool {
        let route = match spec_completed(pre.parser_model()) {
            Some(frame) => spec_dispatch(frame.topic_id, pre.subscriber_table()),
            None => Dispatch::Ignore,
        };
        &&& post.parser_model() == spec_step(pre.parser_model(), data)
        &&& post.publisher_table() == pre.publisher_table()
        &&& post.subscriber_table() == pre.subscriber_table()
        &&& post.is_configured() == match route {
            Dispatch::Negotiate => true,
            Dispatch::Stop => false,
            _ => pre.is_configured(),
        }
        &&& sent_after == sent_before + match route {
            Dispatch::Negotiate => spec_handshake(pre.publisher_table(), pre.subscriber_table()),
            _ => Seq::<u8>::empty(),
        }
        &&& forall|slot: int| #[trigger]
            post.inbox(slot) == if route == (Dispatch::Deliver { slot }) {
                pre.inbox(slot).push(pre.parser_model().payload)
            } else {
                pre.inbox(slot)
            }
    }

    /// A node that a call has left as it was.
    pub open spec fn unchanged(pre: Self, post: Self) -> bool {
        &&& post.parser_model() == pre.parser_model()
        &&& post.publisher_table() == pre.publisher_table()
        &&& post.subscriber_table() == pre.subscriber_table()
        &&& post.is_configured() == pre.is_configured()
        &&& forall|slot: int| #[trigger] post.inbox(slot) == pre.inbox(slot)
    }

    /// A frame addressed to a user topic to which nobody subscribed is
    /// consumed and dropped: the parser waits for the next frame, no
    /// subscriber is handed anything, nothing is sent, and the node is
    /// configured or not as it was before.
    pub proof fn lemma_unregistered_frame_is_dropped(
        pre: Self,
        data: u8,
        post: Self,
        sent_before: Seq<u8>,
        sent_after: Seq<u8>,
    )
        requires
            Self::byte_effect(pre, data, post, sent_before, sent_after),
            pre.parser_model().state == State::MessageChecksum,
            pre.parser_model().topic >= FIRST_USER_TOPIC_ID,
            pre.parser_model().topic - FIRST_USER_TOPIC_ID >= pre.subscriber_table().len()
                || pre.subscriber_table()[pre.parser_model().topic - FIRST_USER_TOPIC_ID] is None,
        ensures
            post.parser_model().state == State::Sync,
            forall|slot: int| post.inbox(slot) == pre.inbox(slot),
            sent_after == sent_before,
            post.is_configured() == pre.is_configured(),
            post.publisher_table() == pre.publisher_table(),
            post.subscriber_table() == pre.subscriber_table(),
    {
        assert(sent_before + Seq::<u8>::empty() =~= sent_before);
    }

    /// Sends `msg` on the publisher at `handle`: the frame that carries it
    /// on the publisher's topic id, which is `handle` plus 100.
    ///
    /// Nothing is sent where `handle` is no occupied publisher slot, or where
    /// the frame does not fit the buffer in which frames are built.
    pub fn publish<M: Message + ?Sized, H: HardwareInterface>(
        &self,
        handle: usize,
        msg: &M,
        hardware: &mut Link<H>,
    )
        requires
            self.wf(),
        ensures
            final(hardware).taken() == old(hardware).taken(),
            final(hardware).sent() == old(hardware).sent() + if handle < MAX_PUB_SUBS
                && self.publisher_table()[handle as int] is Some {
                spec_sent_for((handle + FIRST_USER_TOPIC_ID) as u16, msg.wire())
            } else {
                Seq::<u8>::empty()
            },
    {
        if handle < MAX_PUB_SUBS {
            if let Some(ref p) = self.publishers[handle] {
                assert(self.publishers@[handle as int] == Some(*p));
                assert(p.id == handle + FIRST_USER_TOPIC_ID);
                self.send_message(p.id, msg, hardware);
                return ;
            }
        }
        assert(old(hardware).sent() + Seq::<u8>::empty() =~= old(hardware).sent());
    }

    /// Reads the hardware once and feeds the byte that the read gave, if it
    /// gave one, to the parser; a frame that the byte completes is
    /// dispatched. Does nothing more where no byte was waiting.
    pub fn spin_once<H: HardwareInterface>(&mut self, hardware: &mut Link<H>)
        requires
            old(self).wf(),
        ensures
            final(self).wf(),
            exists|port: &mut H, data: Option<u8>|
                {
                    &&& mut_ref_current(port) == old(hardware).device()
                    &&& #[trigger] call_ensures(H::read, (port,), data)
                    &&& final(hardware).taken() == match data {
                        Some(byte) => old(hardware).taken().push(byte),
                        None => old(hardware).taken(),
                    }
                },
            final(hardware).taken() == old(hardware).taken() || exists|data: u8|
                final(hardware).taken() == #[trigger] old(hardware).taken().push(data),
            final(hardware).taken() == old(hardware).taken() ==> Self::unchanged(
                *old(self),
                *final(self),
            ) && final(hardware).sent() == old(hardware).sent(),
            forall|data: u8|
                final(hardware).taken() == #[trigger] old(hardware).taken().push(data)
                    ==> Self::byte_effect(
                    *old(self),
                    data,
                    *final(self),
                    old(hardware).sent(),
                    final(hardware).sent(),
                ),
    {
        let data = hardware.read();
        if let Some(data) = data {
            self.process_byte(data, hardware);
            assert(hardware.taken().last() == data);
            assert(hardware.taken().len() == old(hardware).taken().len() + 1);
        } else {
            assert forall|other: u8|
                hardware.taken() == #[trigger] old(hardware).taken().push(other) implies false by {
                assert(old(hardware).taken().push(other).len() == old(hardware).taken().len()
                    + 1);
            }
        }
    }

    /// Feeds one received byte to the parser and dispatches the frame that
    /// it completes, if it completes one:
    ///
    /// - on the topic-request id, the node sends the handshake and is
    ///   configured from then on;
    /// - on the stop id, the node is no longer configured;
    /// - on the id of a registered subscriber, the subscriber takes the
    ///   payload;
    /// - on any other id, nothing happens.
    pub fn process_byte<H: HardwareInterface>(&mut self, data: u8, hardware: &mut Link<H>)
        requires
            old(self).wf(),
        ensures
            final(self).wf(),
            final(hardware).taken() == old(hardware).taken(),
            Self::byte_effect(
                *old(self),
                data,
                *final(self),
                old(hardware).sent(),
                final(hardware).sent(),
            ),
    {
        let completed = self.parser.step(data);
        if completed {
            self.dispatch(hardware);
        } else {
            assert(old(hardware).sent() + Seq::<u8>::empty() =~= old(hardware).sent());
        }
    }

    /// Acts on the frame that the parser has just completed.
    fn dispatch<H: HardwareInterface>(&mut self, hardware: &mut Link<H>)
        requires
            old(self).wf(),
        ensures
            final(self).wf(),
            final(self).parser_model() == old(self).parser_model(),
            final(self).publisher_table() == old(self).publisher_table(),
            final(self).subscriber_table() == old(self).subscriber_table(),
            final(hardware).taken() == old(hardware).taken(),
            ({
                let frame_topic = old(self).parser_model().topic;
                let route = spec_dispatch(frame_topic, old(self).subscriber_table());
                &&& final(self).is_configured() == match route {
                    Dispatch::Negotiate => true,
                    Dispatch::Stop => false,
                    _ => old(self).is_configured(),
                }
                &&& final(hardware).sent() == old(hardware).sent() + match route {
                    Dispatch::Negotiate => spec_handshake(
                        old(self).publisher_table(),
                        old(self).subscriber_table(),
                    ),
                    _ => Seq::<u8>::empty(),
                }
                &&& forall|slot: int| #[trigger]
                    final(self).inbox(slot) == if route == (Dispatch::Deliver { slot }) {
                        old(self).inbox(slot).push(old(self).parser_model().payload)
                    } else {
                        old(self).inbox(slot)
                    }
            }),
    {
        let topic: u16 = self.parser.topic();
        if topic == TOPICINFO_ID_PUBLISHER {
            self.request_sync_time(hardware);
            self.negotiate_topics(hardware);
            self.configured = true;
            assert(hardware.sent() =~= old(hardware).sent() + spec_handshake(
                self.publisher_table(),
                self.subscriber_table(),
            ));
        } else if topic == TOPICINFO_ID_TIME {
            assert(old(hardware).sent() + Seq::<u8>::empty() =~= old(hardware).sent());
        } else if topic == TOPICINFO_ID_TX_STOP {
            self.configured = false;
            assert(old(hardware).sent() + Seq::<u8>::empty() =~= old(hardware).sent());
        } else {
            assert(old(hardware).sent() + Seq::<u8>::empty() =~= old(hardware).sent());
            if topic >= FIRST_USER_TOPIC_ID {
                let idx: usize = (topic - FIRST_USER_TOPIC_ID) as usize;
                if idx < MAX_PUB_SUBS {
                    let payload = self.parser.payload();
                    if let Some(ref mut sub) = self.subscribers[idx] {
                        sub.handle_message(payload);
                        proof {
                            self.inboxes@ = self.inboxes@.update(
                                idx as int,
                                self.inboxes@[idx as int].push(payload@),
                            );
                        }
                    }
                }
            }
        }
    }

    /// Sends a time request: the frame of a zero timestamp on the time topic.
    pub fn request_sync_time<H: HardwareInterface>(&self, hardware: &mut Link<H>)
        ensures
            final(hardware).taken() == old(hardware).taken(),
            final(hardware).sent() == old(hardware).sent() + spec_frame(
                TOPICINFO_ID_TIME,
                spec_time_request(),
            ),
    {
        let time = std_msgs::Time::default();
        assert(time.wire() =~= spec_time_request());
        self.send_message(TOPICINFO_ID_TIME, &time, hardware);
    }

    /// Announces every publisher, then every subscriber, in slot order.
    fn negotiate_topics<H: HardwareInterface>(&self, hardware: &mut Link<H>)
        ensures
            final(hardware).taken() == old(hardware).taken(),
            final(hardware).sent() == old(hardware).sent() + spec_announcements(
                TOPICINFO_ID_PUBLISHER,
                publisher_infos(self.publisher_table()),
            ) + spec_announcements(TOPICINFO_ID_SUBSCRIBER, self.subscriber_table()),
    {
        let ghost infos = publisher_infos(self.publishers@);
        let mut i: usize = 0;
        assert(infos.subrange(0, 0) =~= Seq::<Option<TopicInfo>>::empty());
        assert(hardware.sent() =~= old(hardware).sent() + spec_announcements(
            TOPICINFO_ID_PUBLISHER,
            infos.subrange(0, 0),
        ));
        while i < MAX_PUB_SUBS
            invariant
                i <= MAX_PUB_SUBS,
                infos == publisher_infos(self.publishers@),
                hardware.taken() == old(hardware).taken(),
                hardware.sent() == old(hardware).sent() + spec_announcements(
                    TOPICINFO_ID_PUBLISHER,
                    infos.subrange(0, i as int),
                ),
            decreases MAX_PUB_SUBS - i,
        {
            let ghost before = hardware.sent();
            proof {
                assert(infos.subrange(0, i + 1).drop_last() =~= infos.subrange(0, i as int));
                assert(infos.subrange(0, i + 1).last() == infos[i as int]);
            }
            if let Some(ref p) = self.publishers[i] {
                let ti: TopicInfo = TopicInfo::from(*p);
                self.send_message(TOPICINFO_ID_PUBLISHER, &ti, hardware);
                assert(hardware.sent() =~= old(hardware).sent() + spec_announcements(
                    TOPICINFO_ID_PUBLISHER,
                    infos.subrange(0, i + 1),
                ));
            } else {
                assert(before + Seq::<u8>::empty() =~= before);
            }
            i = i + 1;
        }
        assert(infos.subrange(0, MAX_PUB_SUBS as int) =~= infos);

        let ghost mid = hardware.sent();
        let ghost subs = self.subscriber_info@;
        let mut k: usize = 0;
        assert(subs.subrange(0, 0) =~= Seq::<Option<TopicInfo>>::empty());
        assert(hardware.sent() =~= mid + spec_announcements(
            TOPICINFO_ID_SUBSCRIBER,
            subs.subrange(0, 0),
        ));
        while k < MAX_PUB_SUBS
            invariant
                k <= MAX_PUB_SUBS,
                subs == self.subscriber_info@,
                hardware.taken() == old(hardware).taken(),
                hardware.sent() == mid + spec_announcements(
                    TOPICINFO_ID_SUBSCRIBER,
                    subs.subrange(0, k as int),
                ),
            decreases MAX_PUB_SUBS - k,
        {
            let ghost before = hardware.sent();
            proof {
                assert(subs.subrange(0, k + 1).drop_last() =~= subs.subrange(0, k as int));
                assert(subs.subrange(0, k + 1).last() == subs[k as int]);
            }
            if let Some(ref ti) = self.subscriber_info[k] {
                self.send_message(TOPICINFO_ID_SUBSCRIBER, ti, hardware);
                assert(hardware.sent() =~= mid + spec_announcements(
                    TOPICINFO_ID_SUBSCRIBER,
                    subs.subrange(0, k + 1),
                ));
            } else {
                assert(before + Seq::<u8>::empty() =~= before);
            }
            k = k + 1;
        }
        assert(subs.subrange(0, MAX_PUB_SUBS as int) =~= subs);
    }

    /// Builds the frame that carries `msg` on `topic_id` and writes it to
    /// the hardware, byte by byte. Where the frame does not fit the buffer
    /// in which frames are built, nothing is written.
    fn send_message<M: Message + ?Sized, H: HardwareInterface>(
        &self,
        topic_id: u16,
        msg: &M,
        hardware: &mut Link<H>,
    )
        ensures
            final(hardware).taken() == old(hardware).taken(),
            final(hardware).sent() == old(hardware).sent() + spec_sent_for(topic_id, msg.wire()),
    {
        let mut message_out: [u8; 256] = [0u8; 256];
        match encode_frame(topic_id, msg, &mut message_out) {
            Ok(n) => {
                let ghost frame = spec_frame(topic_id, msg.wire());
                proof {
                    super::frame::lemma_frame_len(topic_id, msg.wire());
                }
                assert(message_out@.subrange(0, n as int) =~= frame);
                let mut i: usize = 0;
                assert(frame.subrange(0, 0) =~= Seq::<u8>::empty());
                assert(hardware.sent() =~= old(hardware).sent() + frame.subrange(0, 0));
                while i < n
                    invariant
                        i <= n,
                        n <= MESSAGE_OUT_SIZE,
                        n == frame.len(),
                        message_out@.subrange(0, n as int) == frame,
                        hardware.taken() == old(hardware).taken(),
                        hardware.sent() == old(hardware).sent() + frame.subrange(0, i as int),
                    decreases n - i,
                {
                    let data: u8 = message_out[i];
                    assert(data == frame[i as int]);
                    hardware.write(data);
                    assert(hardware.sent() =~= old(hardware).sent() + frame.subrange(0, i + 1));
                    i = i + 1;
                }
                assert(frame.subrange(0, n as int) =~= frame);
            },
            Err(_) => {
                assert(old(hardware).sent() + Seq::<u8>::empty() =~= old(hardware).sent());
            },
        }
    }
}

} // verus!
