use rosserial::serial::{Buffer, RX_SZ};

#[test]
fn new_buffer_is_empty() {
    let mut buffer = Buffer::new();
    assert_eq!(buffer.read(), None);
    assert_eq!(buffer.read(), None);
}

#[test]
fn bytes_come_out_in_the_order_they_went_in() {
    let mut buffer = Buffer::new();
    buffer.push(1);
    buffer.push(2);
    buffer.push(3);
    assert_eq!(buffer.read(), Some(1));
    buffer.push(4);
    assert_eq!(buffer.read(), Some(2));
    assert_eq!(buffer.read(), Some(3));
    assert_eq!(buffer.read(), Some(4));
    assert_eq!(buffer.read(), None);
}

#[test]
fn positions_wrap_around_the_ring() {
    let mut buffer = Buffer::new();
    for round in 0..5usize {
        for i in 0..300usize {
            buffer.push((round * 300 + i) as u8);
        }
        for i in 0..300usize {
            assert_eq!(buffer.read(), Some((round * 300 + i) as u8));
        }
        assert_eq!(buffer.read(), None);
    }
}

#[test]
fn buffer_holds_one_byte_less_than_it_has_slots() {
    assert_eq!(RX_SZ, 512);
    let mut buffer = Buffer::new();
    for i in 0..511usize {
        buffer.push(i as u8);
    }
    for i in 0..511usize {
        assert_eq!(buffer.read(), Some(i as u8));
    }
    assert_eq!(buffer.read(), None);
}

#[test]
fn push_into_a_full_buffer_empties_it() {
    let mut buffer = Buffer::new();
    for i in 0..511usize {
        buffer.push(i as u8);
    }
    buffer.push(0xAA);
    assert_eq!(buffer.read(), None);
    buffer.push(0xBB);
    assert_eq!(buffer.read(), Some(0xBB));
    assert_eq!(buffer.read(), None);
}
