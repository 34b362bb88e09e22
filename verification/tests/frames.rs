use rosserial::msgs::rosserial_msgs::TopicInfo;
use rosserial::msgs::std_msgs::{Bool, Empty, Time};
use rosserial::ros::{
    checksum8, encode_frame, encode_header, FrameError, FrameParser, State, FRAME_OVERHEAD,
    HEADER_LEN, PROTOCOL_VERSION, SYNC_BYTE,
};

#[test]
fn frame_constants() {
    assert_eq!(SYNC_BYTE, 0xFF);
    assert_eq!(PROTOCOL_VERSION, 0xFE);
    assert_eq!(HEADER_LEN, 7);
    assert_eq!(FRAME_OVERHEAD, 8);
}

#[test]
fn checksum_is_255_less_the_sum_modulo_256() {
    assert_eq!(checksum8(&[]), 255);
    assert_eq!(checksum8(&[0]), 255);
    assert_eq!(checksum8(&[1, 2, 3]), 249);
    assert_eq!(checksum8(&[200, 100]), 211);
    assert_eq!(checksum8(&[255, 255]), 1);
    assert_eq!(checksum8(&[255]), 0);
    assert_eq!(checksum8(&[0xFF; 1000]), 255 - ((255 * 1000) % 256) as u8);
}

#[test]
fn header_holds_length_and_topic_low_byte_first() {
    assert_eq!(encode_header(0, 10), [0xFF, 0xFE, 0, 0, 255, 10, 0]);
    assert_eq!(encode_header(3, 300), [0xFF, 0xFE, 3, 0, 252, 44, 1]);
    assert_eq!(encode_header(0x0201, 0xFFFF), [0xFF, 0xFE, 1, 2, 252, 0xFF, 0xFF]);
    assert_eq!(encode_header(0xFFFF, 0), [0xFF, 0xFE, 0xFF, 0xFF, 1, 0, 0]);
}

#[test]
fn frame_of_a_bool() {
    let mut dest = [0x77u8; 12];
    assert_eq!(encode_frame(100, &Bool { data: true }, &mut dest), Ok(9));
    assert_eq!(dest, [0xFF, 0xFE, 1, 0, 254, 100, 0, 1, 154, 0x77, 0x77, 0x77]);
}

#[test]
fn frame_of_a_time_request() {
    let mut dest = [0u8; 16];
    assert_eq!(encode_frame(10, &Time::default(), &mut dest), Ok(16));
    assert_eq!(dest, [255, 254, 8, 0, 247, 10, 0, 0, 0, 0, 0, 0, 0, 0, 0, 245]);
}

#[test]
fn frame_without_payload_has_eight_bytes() {
    let mut dest = [0x11u8; 8];
    assert_eq!(encode_frame(10, &Empty {}, &mut dest), Ok(8));
    assert_eq!(dest, [255, 254, 0, 0, 255, 10, 0, 245]);

    let mut parser = FrameParser::new();
    let mut completed = 0;
    for byte in dest {
        if parser.step(byte) {
            completed += 1;
            assert_eq!(parser.topic(), 10);
            assert_eq!(parser.payload().len(), 0);
        }
    }
    assert_eq!(completed, 1);
    assert_eq!(parser.state(), State::Sync);
}

#[test]
fn frame_that_does_not_fit_writes_nothing() {
    let mut dest = [0x42u8; 8];
    assert_eq!(encode_frame(100, &Bool { data: true }, &mut dest), Err(FrameError::PayloadTooLarge));
    assert_eq!(dest, [0x42; 8]);

    let mut short = [0x42u8; 7];
    assert_eq!(encode_frame(100, &Empty {}, &mut short), Err(FrameError::PayloadTooLarge));
    assert_eq!(short, [0x42; 7]);

    let mut none: [u8; 0] = [];
    assert_eq!(encode_frame(100, &Empty {}, &mut none), Err(FrameError::PayloadTooLarge));
}

#[test]
fn frame_fits_exactly() {
    let mut dest = [0u8; 9];
    assert_eq!(encode_frame(101, &Bool { data: false }, &mut dest), Ok(9));
    assert_eq!(dest, [255, 254, 1, 0, 254, 101, 0, 0, 154]);
}

#[test]
fn frame_of_an_announcement() {
    let info = TopicInfo {
        id: 100,
        name: "test",
        message_type: "std_msgs/Bool",
        md5: "8b94c1b53db61fb6aed406028ad6332a",
        buffer_size: 256,
    };
    let mut dest = [0u8; 256];
    assert_eq!(encode_frame(0, &info, &mut dest), Ok(75));
    assert_eq!(&dest[..9], &[255, 254, 67, 0, 188, 0, 0, 100, 0]);
    assert_eq!(dest[74], 168);
    assert_eq!(dest[75], 0);
    let mut small = [0u8; 74];
    assert_eq!(encode_frame(0, &info, &mut small), Err(FrameError::PayloadTooLarge));
    assert_eq!(small, [0u8; 74]);
}
