use rosserial::msgs::rosserial_msgs::TopicInfo;
use rosserial::msgs::std_msgs::{Bool, Empty, Time};
use rosserial::msgs::Message;
use rosserial::ros::{
    describe, HardwareInterface, Link, MessageHandler, NodeHandle, NodeHandleError, Publisher,
    State, Subscriber, TopicBase, MAX_PUB_SUBS, MESSAGE_OUT_SIZE,
};
use std::cell::RefCell;
use std::rc::Rc;

const BOOL_MD5: &str = "8b94c1b53db61fb6aed406028ad6332a";
const TIME_REQUEST: [u8; 16] = [255, 254, 8, 0, 247, 10, 0, 0, 0, 0, 0, 0, 0, 0, 0, 245];
const TOPIC_REQUEST: [u8; 8] = [255, 254, 0, 0, 255, 0, 0, 255];
const STOP: [u8; 8] = [255, 254, 0, 0, 255, 11, 0, 244];
const LONG_NAME: &str = "a_topic_name_that_is_far_too_long_to_be_announced_in_one_frame_\
because_the_frame_of_an_announcement_has_to_fit_into_the_two_hundred_and_fifty_six_bytes_of_the_\
buffer_in_which_outgoing_frames_are_built_and_this_name_alone_is_longer_than_that_buffer_is_wide_\
which_is_the_whole_point_of_it";

struct Port {
    rx: Vec<u8>,
    tx: Vec<u8>,
    reads: usize,
}

impl Port {
    fn new(rx: &[u8]) -> Port {
        Port { rx: rx.to_vec(), tx: Vec::new(), reads: 0 }
    }
}

impl HardwareInterface for Port {
    fn read(&mut self) -> Option<u8> {
        self.reads += 1;
        if self.rx.is_empty() {
            None
        } else {
            Some(self.rx.remove(0))
        }
    }

    fn write(&mut self, data: u8) {
        self.tx.push(data);
    }

    fn time(&self) -> u32 {
        1234
    }
}

struct Recorder {
    payloads: Vec<Vec<u8>>,
}

impl MessageHandler for Recorder {
    fn handle_message(&mut self, data: &[u8]) {
        self.payloads.push(data.to_vec());
    }
}

fn frame(topic: u16, payload: &[u8]) -> Vec<u8> {
    let len = payload.len() as u16;
    let len_bytes = [len as u8, (len >> 8) as u8];
    let topic_bytes = [topic as u8, (topic >> 8) as u8];
    let sum = |bytes: &[u8]| bytes.iter().fold(0u32, |acc, b| acc + *b as u32);
    let mut out = vec![0xFF, 0xFE, len_bytes[0], len_bytes[1]];
    out.push(255 - (sum(&len_bytes) % 256) as u8);
    out.extend_from_slice(&topic_bytes);
    out.extend_from_slice(payload);
    out.push(255 - ((sum(&topic_bytes) + sum(payload)) % 256) as u8);
    out
}

fn announcement(id: u16, name: &str, message_type: &str, md5: &str) -> Vec<u8> {
    let mut out = vec![id as u8, (id >> 8) as u8];
    for text in [name, message_type, md5] {
        out.extend_from_slice(&(text.len() as u32).to_le_bytes());
        out.extend_from_slice(text.as_bytes());
    }
    out.extend_from_slice(&256u32.to_le_bytes());
    out
}

fn info(name: &'static str) -> TopicInfo {
    TopicInfo { id: 0, name, message_type: "std_msgs/Bool", md5: BOOL_MD5, buffer_size: 0 }
}

fn spin_all(node: &mut NodeHandle, link: &mut Link<Port>) {
    while !link.hardware().rx.is_empty() {
        node.spin_once(link);
    }
}

#[test]
fn default_node_is_idle() {
    let node = NodeHandle::default();
    assert!(!node.configured());
    assert_eq!(node.state(), State::Sync);
    assert_eq!(MAX_PUB_SUBS, 256);
    assert_eq!(MESSAGE_OUT_SIZE, 256);
    for slot in [0usize, 1, 255, 256, usize::MAX] {
        assert!(node.publisher(slot).is_none());
        assert!(node.subscriber_info(slot).is_none());
    }
}

#[test]
fn publisher_new_keeps_its_fields() {
    let p = Publisher::new("test", 100, "std_msgs/Bool", BOOL_MD5);
    assert_eq!(p.topic, "test");
    assert_eq!(p.id, 100);
    assert_eq!(p.message_type, "std_msgs/Bool");
    assert_eq!(p.md5sum, BOOL_MD5);
}

#[test]
fn publisher_becomes_its_announcement() {
    let p = Publisher::new("test", 107, "std_msgs/Bool", BOOL_MD5);
    let ti = TopicInfo::from(p);
    assert_eq!(ti.id, 107);
    assert_eq!(ti.name, "test");
    assert_eq!(ti.message_type, "std_msgs/Bool");
    assert_eq!(ti.md5, BOOL_MD5);
    assert_eq!(ti.buffer_size, 256);
    let other: TopicInfo = p.into();
    assert_eq!(other.id, 107);
    assert_eq!(other.buffer_size, 256);
}

#[test]
fn advertise_registers_type_and_id() {
    let mut node = NodeHandle::default();
    assert_eq!(node.advertise::<Bool>("test"), Ok(0));
    assert_eq!(node.advertise::<Time>("clock"), Ok(1));
    let first = node.publisher(0).unwrap();
    assert_eq!(first.topic, "test");
    assert_eq!(first.id, 100);
    assert_eq!(first.message_type, "std_msgs/Bool");
    assert_eq!(first.md5sum, BOOL_MD5);
    let second = node.publisher(1).unwrap();
    assert_eq!(second.topic, "clock");
    assert_eq!(second.id, 101);
    assert_eq!(second.message_type, "std_msgs/Time");
    assert_eq!(second.md5sum, "cd7166c74c552c311fbcc2fe5a7bc289");
    assert!(node.publisher(2).is_none());
    assert!(node.subscriber_info(0).is_none());
}

#[test]
fn advertise_fills_the_table_in_order_and_then_fails() {
    let mut node = NodeHandle::default();
    for expected in 0..MAX_PUB_SUBS {
        assert_eq!(node.advertise::<Bool>("test"), Ok(expected));
        assert_eq!(node.publisher(expected).unwrap().id, 100 + expected as u16);
    }
    assert_eq!(node.advertise::<Time>("late"), Err(NodeHandleError::MaxPublishersReached));
    assert_eq!(node.advertise::<Time>("later"), Err(NodeHandleError::MaxPublishersReached));
    for slot in 0..MAX_PUB_SUBS {
        let p = node.publisher(slot).unwrap();
        assert_eq!(p.topic, "test");
        assert_eq!(p.id, 100 + slot as u16);
        assert_eq!(p.message_type, "std_msgs/Bool");
    }
    assert_eq!(node.publisher(255).unwrap().id, 355);
    assert!(!node.configured());
    assert_eq!(node.state(), State::Sync);
}

#[test]
fn subscribers_fill_their_table_in_order_and_then_fail() {
    let mut recorders: Vec<Recorder> =
        (0..MAX_PUB_SUBS + 1).map(|_| Recorder { payloads: Vec::new() }).collect();
    let mut node = NodeHandle::default();
    let mut expected = 0;
    for recorder in recorders.iter_mut() {
        let result = node.register_subscriber(info("in"), recorder);
        if expected < MAX_PUB_SUBS {
            assert_eq!(result, Ok(expected));
            assert_eq!(node.subscriber_info(expected).unwrap().id, 100 + expected as u16);
        } else {
            assert_eq!(result, Err(NodeHandleError::MaxSubscribersReached));
        }
        expected += 1;
    }
    assert_eq!(node.subscriber_info(255).unwrap().id, 355);
    assert!(node.publisher(0).is_none());
}

#[test]
fn registration_assigns_id_and_buffer_size() {
    let mut recorder = Recorder { payloads: Vec::new() };
    let mut node = NodeHandle::default();
    let given =
        TopicInfo { id: 999, name: "in", message_type: "t", md5: "m", buffer_size: 5 };
    assert_eq!(node.register_subscriber(given, &mut recorder), Ok(0));
    let stored = node.subscriber_info(0).unwrap();
    assert_eq!(stored.id, 100);
    assert_eq!(stored.name, "in");
    assert_eq!(stored.message_type, "t");
    assert_eq!(stored.md5, "m");
    assert_eq!(stored.buffer_size, 256);
}

#[test]
fn subscriber_describes_itself() {
    let sub = Subscriber::new("led_cmd", |_msg: Bool| {});
    assert_eq!(sub.topic(), "led_cmd");
    assert_eq!(sub.message_type(), "std_msgs/Bool");
    assert_eq!(sub.md5sum(), BOOL_MD5);
    let ti = describe(&sub);
    assert_eq!(ti.id, 0);
    assert_eq!(ti.name, "led_cmd");
    assert_eq!(ti.message_type, "std_msgs/Bool");
    assert_eq!(ti.md5, BOOL_MD5);
    assert_eq!(ti.buffer_size, 256);
}

#[test]
fn subscriber_decodes_and_calls_back() {
    let mut seen: Vec<bool> = Vec::new();
    {
        let mut sub = Subscriber::new("led_cmd", |msg: Bool| seen.push(msg.data));
        sub.handle_message(&[1]);
        sub.handle_message(&[0]);
        sub.handle_message(&[7, 0]);
    }
    assert_eq!(seen, vec![true, false, true]);
}

#[test]
fn subscriber_hands_on_a_fresh_message_where_nothing_decodes() {
    let mut seen: Vec<(u32, u32)> = Vec::new();
    {
        let mut sub = Subscriber::new("clock", |msg: Time| seen.push((msg.data.sec, msg.data.nsec)));
        sub.handle_message(&[1, 0, 0, 0, 2, 0, 0, 0]);
        sub.handle_message(&[1, 2, 3]);
    }
    assert_eq!(seen, vec![(1, 2), (0, 0)]);
}

#[test]
fn link_reads_and_writes_through() {
    let mut link = Link::new(Port::new(&[5, 6]));
    assert_eq!(link.time(), 1234);
    assert_eq!(link.read(), Some(5));
    link.write(9);
    assert_eq!(link.read(), Some(6));
    assert_eq!(link.read(), None);
    link.write(8);
    assert_eq!(link.hardware().tx, vec![9, 8]);
    let port = link.into_inner();
    assert_eq!(port.reads, 3);
    assert_eq!(port.tx, vec![9, 8]);
}

#[test]
fn spin_once_takes_one_byte_at_most() {
    let mut node = NodeHandle::default();
    let mut link = Link::new(Port::new(&[0xFF, 0xFE, 0]));
    node.spin_once(&mut link);
    assert_eq!(link.hardware().reads, 1);
    assert_eq!(link.hardware().rx.len(), 2);
    assert_eq!(node.state(), State::ProtocolVersion);
    node.spin_once(&mut link);
    assert_eq!(node.state(), State::SizeLsb);
    node.spin_once(&mut link);
    assert_eq!(node.state(), State::SizeMsb);
    node.spin_once(&mut link);
    node.spin_once(&mut link);
    assert_eq!(link.hardware().reads, 5);
    assert_eq!(node.state(), State::SizeMsb);
    assert!(link.hardware().tx.is_empty());
}

#[test]
fn process_byte_is_one_parser_step() {
    let mut node = NodeHandle::default();
    let mut link = Link::new(Port::new(&[]));
    node.process_byte(0x12, &mut link);
    assert_eq!(node.state(), State::Sync);
    node.process_byte(0xFF, &mut link);
    assert_eq!(node.state(), State::ProtocolVersion);
    node.process_byte(0x12, &mut link);
    assert_eq!(node.state(), State::Sync);
    assert_eq!(link.hardware().reads, 0);
    assert!(link.hardware().tx.is_empty());
}

#[test]
fn request_sync_time_sends_a_zero_timestamp() {
    let node = NodeHandle::default();
    let mut link = Link::new(Port::new(&[]));
    node.request_sync_time(&mut link);
    assert_eq!(link.hardware().tx, TIME_REQUEST.to_vec());
    node.request_sync_time(&mut link);
    assert_eq!(link.hardware().tx.len(), 32);
    assert_eq!(&link.hardware().tx[16..], &TIME_REQUEST);
}

#[test]
fn publish_sends_the_frame_on_the_publishers_id() {
    let mut node = NodeHandle::default();
    assert_eq!(node.advertise::<Bool>("a"), Ok(0));
    assert_eq!(node.advertise::<Bool>("b"), Ok(1));
    let mut link = Link::new(Port::new(&[]));
    node.publish(1, &Bool { data: false }, &mut link);
    assert_eq!(link.hardware().tx, vec![255, 254, 1, 0, 254, 101, 0, 0, 154]);
    node.publish(0, &Bool { data: true }, &mut link);
    assert_eq!(&link.hardware().tx[9..], &[255, 254, 1, 0, 254, 100, 0, 1, 154]);
}

#[test]
fn publish_takes_a_message_behind_a_trait_object() {
    let mut node = NodeHandle::default();
    assert_eq!(node.advertise::<Empty>("ping"), Ok(0));
    let mut link = Link::new(Port::new(&[]));
    let msg: &dyn Message = &Empty {};
    node.publish(0, msg, &mut link);
    assert_eq!(link.hardware().tx, vec![255, 254, 0, 0, 255, 100, 0, 155]);
}

#[test]
fn publish_on_a_free_slot_does_nothing() {
    let mut node = NodeHandle::default();
    assert_eq!(node.advertise::<Bool>("a"), Ok(0));
    let mut link = Link::new(Port::new(&[]));
    for handle in [1usize, 255, 256, 1000, usize::MAX] {
        node.publish(handle, &Bool { data: true }, &mut link);
    }
    assert!(link.hardware().tx.is_empty());
}

#[test]
fn publish_drops_a_message_whose_frame_does_not_fit() {
    let mut node = NodeHandle::default();
    assert_eq!(node.advertise::<TopicInfo>("info"), Ok(0));
    let mut link = Link::new(Port::new(&[]));
    let big = TopicInfo { id: 1, name: LONG_NAME, message_type: "", md5: "", buffer_size: 2 };
    assert!(!big.fits(MESSAGE_OUT_SIZE - 8));
    node.publish(0, &big, &mut link);
    assert!(link.hardware().tx.is_empty());

    let largest = TopicInfo { id: 1, name: &LONG_NAME[..230], message_type: "", md5: "", buffer_size: 2 };
    assert!(largest.fits(248));
    assert!(!largest.fits(247));
    node.publish(0, &largest, &mut link);
    assert_eq!(link.hardware().tx.len(), 256);
    assert_eq!(&link.hardware().tx[..7], &[255, 254, 248, 0, 7, 100, 0]);
}

#[test]
fn topic_request_starts_the_handshake() {
    let mut recorder = Recorder { payloads: Vec::new() };
    let mut node = NodeHandle::default();
    assert_eq!(node.advertise::<Bool>("test"), Ok(0));
    assert_eq!(node.advertise::<Time>("clock"), Ok(1));
    assert_eq!(node.register_subscriber(info("led_cmd"), &mut recorder), Ok(0));
    let mut link = Link::new(Port::new(&TOPIC_REQUEST));
    for _ in 0..7 {
        node.spin_once(&mut link);
        assert!(link.hardware().tx.is_empty());
        assert!(!node.configured());
    }
    node.spin_once(&mut link);
    assert!(node.configured());
    assert_eq!(node.state(), State::Sync);

    let mut expected = TIME_REQUEST.to_vec();
    expected.extend(frame(0, &announcement(100, "test", "std_msgs/Bool", BOOL_MD5)));
    expected.extend(frame(
        0,
        &announcement(101, "clock", "std_msgs/Time", "cd7166c74c552c311fbcc2fe5a7bc289"),
    ));
    expected.extend(frame(1, &announcement(100, "led_cmd", "std_msgs/Bool", BOOL_MD5)));
    assert_eq!(link.hardware().tx, expected);
    assert_eq!(&expected[16..25], &[255, 254, 67, 0, 188, 0, 0, 100, 0]);
    assert_eq!(expected[16 + 74], 168);
}

#[test]
fn handshake_of_a_node_without_topics_is_the_time_request() {
    let mut node = NodeHandle::default();
    let mut link = Link::new(Port::new(&TOPIC_REQUEST));
    spin_all(&mut node, &mut link);
    assert!(node.configured());
    assert_eq!(link.hardware().tx, TIME_REQUEST.to_vec());
}

#[test]
fn handshake_ignores_the_payload_of_the_request() {
    let mut node = NodeHandle::default();
    let mut link = Link::new(Port::new(&frame(0, &[1, 2, 3])));
    spin_all(&mut node, &mut link);
    assert!(node.configured());
    assert_eq!(link.hardware().tx, TIME_REQUEST.to_vec());
}

#[test]
fn handshake_skips_an_announcement_that_does_not_fit() {
    let mut node = NodeHandle::default();
    assert_eq!(node.advertise::<Bool>(LONG_NAME), Ok(0));
    assert_eq!(node.advertise::<Bool>("b"), Ok(1));
    let mut link = Link::new(Port::new(&TOPIC_REQUEST));
    spin_all(&mut node, &mut link);
    let mut expected = TIME_REQUEST.to_vec();
    expected.extend(frame(0, &announcement(101, "b", "std_msgs/Bool", BOOL_MD5)));
    assert_eq!(link.hardware().tx, expected);
}

#[test]
fn stop_request_clears_configured() {
    let mut node = NodeHandle::default();
    let mut bytes = TOPIC_REQUEST.to_vec();
    bytes.extend_from_slice(&STOP);
    let mut link = Link::new(Port::new(&bytes));
    for _ in 0..8 {
        node.spin_once(&mut link);
    }
    assert!(node.configured());
    for _ in 0..7 {
        node.spin_once(&mut link);
        assert!(node.configured());
    }
    node.spin_once(&mut link);
    assert!(!node.configured());
    assert_eq!(link.hardware().tx, TIME_REQUEST.to_vec());
}

#[test]
fn time_reply_changes_nothing() {
    let mut node = NodeHandle::default();
    let mut link = Link::new(Port::new(&frame(10, &[1, 0, 0, 0, 2, 0, 0, 0])));
    spin_all(&mut node, &mut link);
    assert!(!node.configured());
    assert_eq!(node.state(), State::Sync);
    assert!(link.hardware().tx.is_empty());
}

#[test]
fn reserved_ids_are_ignored() {
    let mut recorder = Recorder { payloads: Vec::new() };
    {
        let mut node = NodeHandle::default();
        assert_eq!(node.register_subscriber(info("in"), &mut recorder), Ok(0));
        let mut bytes = Vec::new();
        for id in [1u16, 2, 4, 6, 7, 9, 12, 50, 99] {
            bytes.extend(frame(id, &[1]));
        }
        let mut link = Link::new(Port::new(&bytes));
        spin_all(&mut node, &mut link);
        assert!(!node.configured());
        assert_eq!(node.state(), State::Sync);
        assert!(link.hardware().tx.is_empty());
    }
    assert!(recorder.payloads.is_empty());
}

#[test]
fn frame_goes_to_the_subscriber_of_its_id() {
    let mut first = Recorder { payloads: Vec::new() };
    let mut second = Recorder { payloads: Vec::new() };
    {
        let mut node = NodeHandle::default();
        assert_eq!(node.register_subscriber(info("a"), &mut first), Ok(0));
        assert_eq!(node.register_subscriber(info("b"), &mut second), Ok(1));
        let mut bytes = frame(101, &[1, 2, 3]);
        bytes.extend(frame(100, &[]));
        bytes.extend(frame(101, &[4]));
        let mut link = Link::new(Port::new(&bytes));
        spin_all(&mut node, &mut link);
        assert!(link.hardware().tx.is_empty());
        assert!(!node.configured());
    }
    assert_eq!(first.payloads, vec![Vec::<u8>::new()]);
    assert_eq!(second.payloads, vec![vec![1, 2, 3], vec![4]]);
}

#[test]
fn frame_for_an_unregistered_subscriber_is_dropped() {
    let mut recorder = Recorder { payloads: Vec::new() };
    {
        let mut node = NodeHandle::default();
        assert_eq!(node.register_subscriber(info("a"), &mut recorder), Ok(0));
        let mut bytes = Vec::new();
        for id in [101u16, 355, 356, 1000, 0xFFFF] {
            bytes.extend(frame(id, &[1, 2]));
        }
        let mut link = Link::new(Port::new(&bytes));
        for _ in 0..bytes.len() / 10 {
            for _ in 0..9 {
                node.spin_once(&mut link);
            }
            assert_eq!(node.state(), State::MessageChecksum);
            node.spin_once(&mut link);
            assert_eq!(node.state(), State::Sync);
        }
        assert!(link.hardware().rx.is_empty());
        assert!(link.hardware().tx.is_empty());
        assert!(!node.configured());
    }
    assert!(recorder.payloads.is_empty());
}

#[test]
fn subscriber_callback_runs_on_dispatch() {
    let seen: Rc<RefCell<Vec<bool>>> = Rc::new(RefCell::new(Vec::new()));
    let sink = seen.clone();
    let mut sub = Subscriber::new("led_cmd", move |msg: Bool| sink.borrow_mut().push(msg.data));
    let ti = describe(&sub);
    {
        let mut node = NodeHandle::default();
        assert_eq!(node.register_subscriber(ti, &mut sub), Ok(0));
        let mut bytes = frame(100, &[1]);
        bytes.extend(frame(100, &[0]));
        let mut link = Link::new(Port::new(&bytes));
        spin_all(&mut node, &mut link);
        assert_eq!(node.subscriber_info(0).unwrap().name, "led_cmd");
    }
    assert_eq!(*seen.borrow(), vec![true, false]);
}
