//! One poll at a time: what the serial interface makes of each result.

use ublox_core::interface::serial::FillProgress;
use ublox_core::interface::serial::MAX_FAULTS_IN_A_ROW;
use ublox_core::DeviceInterface;
use ublox_core::Error;
use ublox_core::PortRead;
use ublox_core::SerialInterface;
use ublox_core::SerialPort;

/// A port that is never polled by these tests.
struct NoPort;

impl SerialPort for NoPort {
    type Error = &'static str;

    fn read(&mut self) -> PortRead<&'static str> {
        PortRead::Fault("polled")
    }
}

#[test]
fn the_fault_limit_is_a_hundred() {
    assert_eq!(MAX_FAULTS_IN_A_ROW, 100);
}

#[test]
fn a_byte_is_queued_and_uses_up_room() {
    let mut iface = SerialInterface::new(NoPort);
    let next = iface.absorb(PortRead::Byte(0x42), FillProgress { room: 5, faults: 3 });
    assert_eq!(next, Some(FillProgress { room: 4, faults: 0 }));
    assert!(matches!(iface.read(), Ok(0x42)));
    assert!(matches!(iface.read(), Err(Error::NoData)));
}

#[test]
fn the_last_byte_of_the_room_leaves_none() {
    let mut iface = SerialInterface::new(NoPort);
    let next = iface.absorb(PortRead::Byte(1), FillProgress { room: 1, faults: 0 });
    assert_eq!(next, Some(FillProgress { room: 0, faults: 0 }));
}

#[test]
fn nothing_waiting_ends_the_fill() {
    let mut iface = SerialInterface::new(NoPort);
    let next = iface.absorb(PortRead::WouldBlock, FillProgress { room: 5, faults: 0 });
    assert_eq!(next, None);
    assert!(matches!(iface.read(), Err(Error::NoData)));
}

#[test]
fn a_fault_is_counted() {
    let mut iface = SerialInterface::new(NoPort);
    let next = iface.absorb(PortRead::Fault("overrun"), FillProgress { room: 5, faults: 0 });
    assert_eq!(next, Some(FillProgress { room: 5, faults: 1 }));
    let next = iface.absorb(PortRead::Fault("overrun"), FillProgress { room: 5, faults: 99 });
    assert_eq!(next, Some(FillProgress { room: 5, faults: 100 }));
    assert!(matches!(iface.read(), Err(Error::NoData)));
}

#[test]
fn one_fault_too_many_ends_the_fill() {
    let mut iface = SerialInterface::new(NoPort);
    let next = iface.absorb(PortRead::Fault("overrun"), FillProgress { room: 5, faults: 100 });
    assert_eq!(next, None);
}

#[test]
fn a_byte_into_a_full_queue_drives_out_the_oldest() {
    let mut iface = SerialInterface::new(NoPort);
    for i in 0..256u32 {
        let next = iface.absorb(PortRead::Byte(i as u8), FillProgress { room: 256 - i as usize, faults: 0 });
        assert_eq!(next, Some(FillProgress { room: 255 - i as usize, faults: 0 }));
    }
    let next = iface.absorb(PortRead::Byte(0xEE), FillProgress { room: 0, faults: 7 });
    assert_eq!(next, Some(FillProgress { room: 0, faults: 0 }));
    assert!(matches!(iface.read(), Ok(1)));
    let mut rest = [0u8; 255];
    assert!(matches!(iface.read_many(&mut rest), Ok(255)));
    assert_eq!(rest[0], 2);
    assert_eq!(rest[253], 255);
    assert_eq!(rest[254], 0xEE);
}

#[test]
fn steps_never_poll_the_port() {
    let mut iface = SerialInterface::new(NoPort);
    iface.absorb(PortRead::Byte(9), FillProgress { room: 2, faults: 0 });
    iface.absorb(PortRead::WouldBlock, FillProgress { room: 1, faults: 0 });
    assert!(matches!(iface.read(), Ok(9)));
    assert!(matches!(iface.read(), Err(Error::NoData)));
}
