//! The node: transport, topics, frame codec, parser and the node handle.

pub mod frame;
pub mod hardware;
pub mod nodehandle;
pub mod parser;
pub mod time;
pub mod topics;

pub use frame::{
    checksum8, encode_frame, encode_header, FrameError, FRAME_OVERHEAD, HEADER_LEN,
    PROTOCOL_VERSION, SYNC_BYTE,
};
pub use hardware::{HardwareInterface, Link};
pub use nodehandle::{
    NodeHandle, NodeHandleError, PublisherHandle, MAX_PUB_SUBS, MESSAGE_OUT_SIZE,
};
pub use parser::{FrameParser, State, MESSAGE_BUFFER_SIZE};
pub use time::Time;
pub use topics::{describe, MessageHandler, Publisher, Subscriber, TopicBase};
