//! The byte queue behind the serial interface.

use ublox_core::interface::ring::BUFFER_CAPACITY;
use ublox_core::ByteBuffer;

#[test]
fn a_new_buffer_is_empty() {
    let mut buffer = ByteBuffer::new();
    assert_eq!(buffer.len(), 0);
    assert_eq!(buffer.pop(), None);
    assert_eq!(buffer.len(), 0);
}

#[test]
fn capacity_is_256() {
    assert_eq!(BUFFER_CAPACITY, 256);
}

#[test]
fn bytes_come_out_in_the_order_they_went_in() {
    let mut buffer = ByteBuffer::new();
    assert_eq!(buffer.push_overwrite(7), None);
    assert_eq!(buffer.push_overwrite(8), None);
    assert_eq!(buffer.push_overwrite(9), None);
    assert_eq!(buffer.len(), 3);
    assert_eq!(buffer.pop(), Some(7));
    assert_eq!(buffer.len(), 2);
    assert_eq!(buffer.pop(), Some(8));
    assert_eq!(buffer.pop(), Some(9));
    assert_eq!(buffer.pop(), None);
}

#[test]
fn a_full_buffer_gives_up_its_oldest_byte() {
    let mut buffer = ByteBuffer::new();
    for i in 0..256 {
        assert_eq!(buffer.push_overwrite(i as u8), None);
    }
    assert_eq!(buffer.len(), 256);
    assert_eq!(buffer.push_overwrite(0xAA), Some(0));
    assert_eq!(buffer.push_overwrite(0xBB), Some(1));
    assert_eq!(buffer.len(), 256);
    assert_eq!(buffer.pop(), Some(2));
    assert_eq!(buffer.len(), 255);
    for i in 3..256 {
        assert_eq!(buffer.pop(), Some(i as u8));
    }
    assert_eq!(buffer.pop(), Some(0xAA));
    assert_eq!(buffer.pop(), Some(0xBB));
    assert_eq!(buffer.pop(), None);
}

#[test]
fn the_queue_wraps_around_its_storage() {
    let mut buffer = ByteBuffer::new();
    let mut next_in: u32 = 0;
    let mut next_out: u32 = 0;
    for round in 0..50 {
        for _ in 0..(round % 7 + 20) {
            if buffer.len() < 256 {
                assert_eq!(buffer.push_overwrite(next_in as u8), None);
                next_in += 1;
            }
        }
        for _ in 0..(round % 5 + 18) {
            if next_out < next_in {
                assert_eq!(buffer.pop(), Some(next_out as u8));
                next_out += 1;
            }
        }
        assert_eq!(buffer.len() as u32, next_in - next_out);
    }
    assert!(next_in > 512);
}
