//! The frame checksum on known vectors.

use ublox_core::PortRead;
use ublox_core::SerialInterface;
use ublox_core::SerialPort;
use ublox_core::UbxDriver;

struct SilentPort;

impl SerialPort for SilentPort {
    type Error = ();

    fn read(&mut self) -> PortRead<()> {
        PortRead::WouldBlock
    }
}

type Driver = UbxDriver<SerialInterface<SilentPort>>;

#[test]
fn checksum_of_nothing_is_zero() {
    assert_eq!(Driver::checksum_for_payload(&[]), [0, 0]);
}

#[test]
fn checksum_of_a_single_byte_is_that_byte_twice() {
    assert_eq!(Driver::checksum_for_payload(&[0x37]), [0x37, 0x37]);
}

#[test]
fn checksum_of_three_small_bytes() {
    // a: 1, 3, 6; b: 1, 4, 10
    assert_eq!(Driver::checksum_for_payload(&[1, 2, 3]), [6, 10]);
}

#[test]
fn checksum_wraps_at_256() {
    // a: 255, 254; b: 255, 253
    assert_eq!(Driver::checksum_for_payload(&[0xFF, 0xFF]), [254, 253]);
}

#[test]
fn checksum_depends_on_the_order_of_bytes() {
    assert_eq!(Driver::checksum_for_payload(&[1, 2]), [3, 4]);
    assert_eq!(Driver::checksum_for_payload(&[2, 1]), [3, 5]);
}

#[test]
fn checksum_reference_vector_nav_pvt_of_zeros() {
    let mut covered = vec![0x01, 0x07, 92, 0];
    covered.extend_from_slice(&[0u8; 92]);
    assert_eq!(covered.len(), 96);
    assert_eq!(Driver::checksum_for_payload(&covered), [0x64, 0xC1]);
}

#[test]
fn checksum_of_an_unknown_frame_header_and_payload() {
    let covered = [0x99, 0x99, 4, 0, 1, 2, 3, 4];
    assert_eq!(Driver::checksum_for_payload(&covered), [0x40, 0x23]);
}

#[test]
fn checksum_notices_any_change_of_one_byte() {
    let mut covered = vec![0x01, 0x04, 18, 0];
    covered.extend((0..18).map(|i| (i * 7 + 3) as u8));
    let good = Driver::checksum_for_payload(&covered);
    for at in 0..covered.len() {
        for delta in 1..=255u8 {
            let mut bad = covered.clone();
            bad[at] = bad[at].wrapping_add(delta);
            assert_ne!(Driver::checksum_for_payload(&bad), good);
        }
    }
}
