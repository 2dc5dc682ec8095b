//! The driver on an interface of the caller's own, one that can fail.

use ublox_core::DeviceInterface;
use ublox_core::Error;
use ublox_core::UbxDriver;

/// An interface that holds its bytes in a vector and fails the read that its
/// countdown says.
struct Flaky {
    waiting: Vec<u8>,
    buffered: Vec<u8>,
    reads_until_fault: Option<usize>,
}

impl Flaky {
    fn new(waiting: &[u8], reads_until_fault: Option<usize>) -> Self {
        Flaky { waiting: waiting.to_vec(), buffered: Vec::new(), reads_until_fault }
    }

    fn fault_due(&mut self) -> bool {
        match self.reads_until_fault {
            Some(0) => {
                self.reads_until_fault = None;
                true
            }
            Some(n) => {
                self.reads_until_fault = Some(n - 1);
                false
            }
            None => false,
        }
    }
}

impl DeviceInterface for Flaky {
    type InterfaceError = Error<u16>;

    fn fill(&mut self) -> usize {
        self.buffered.append(&mut self.waiting);
        self.buffered.len()
    }

    fn read(&mut self) -> Result<u8, Error<u16>> {
        if self.buffered.is_empty() {
            return Err(Error::NoData);
        }
        if self.fault_due() {
            return Err(Error::Comm(0x0BAD));
        }
        Ok(self.buffered.remove(0))
    }

    fn read_many(&mut self, buffer: &mut [u8]) -> Result<usize, Error<u16>> {
        if self.buffered.len() < buffer.len() {
            return Ok(0);
        }
        if self.fault_due() {
            return Err(Error::Comm(0x0BAD));
        }
        let n = buffer.len();
        buffer.copy_from_slice(&self.buffered[..n]);
        self.buffered.drain(..n);
        Ok(n)
    }
}

fn dop_frame() -> Vec<u8> {
    let mut f = vec![0xB5, 0x62, 0x01, 0x04, 18, 0];
    f.extend((0..18).map(|i| (i * 3 + 1) as u8));
    let mut a: u8 = 0;
    let mut b: u8 = 0;
    for byte in &f[2..] {
        a = a.wrapping_add(*byte);
        b = b.wrapping_add(a);
    }
    f.push(a);
    f.push(b);
    f
}

#[test]
fn the_driver_works_on_any_interface() {
    let mut driver = UbxDriver::new_with_interface(Flaky::new(&dop_frame(), None));
    assert!(matches!(driver.handle_one_message(), Ok(1)));
    let m = driver.take_last_nav_dop().unwrap();
    assert_eq!(m.itow, 0x0A07_0401);
    assert_eq!(m.g_dop, 0x100D);
    assert_eq!(m.e_dop, 0x3431);
}

#[test]
fn a_fault_during_the_sync_search_is_reported() {
    let mut bytes = vec![0u8; 5];
    bytes.extend(dop_frame());
    let mut driver = UbxDriver::new_with_interface(Flaky::new(&bytes, Some(2)));
    assert!(matches!(driver.handle_one_message(), Err(Error::Comm(0x0BAD))));
    assert_eq!(driver.take_last_nav_dop(), None);
    // two bytes of noise are gone, the rest is found by the next call
    assert!(matches!(driver.handle_one_message(), Ok(1)));
    assert!(driver.take_last_nav_dop().is_some());
}

#[test]
fn a_fault_on_the_header_is_reported() {
    let mut driver = UbxDriver::new_with_interface(Flaky::new(&dop_frame(), Some(2)));
    assert!(matches!(driver.handle_one_message(), Err(Error::Comm(0x0BAD))));
    assert_eq!(driver.take_last_nav_dop(), None);
    // the sync bytes are gone: the frame is lost
    assert!(matches!(driver.handle_one_message(), Ok(0)));
    assert_eq!(driver.take_last_nav_dop(), None);
}

#[test]
fn a_fault_on_the_payload_is_reported() {
    let mut driver = UbxDriver::new_with_interface(Flaky::new(&dop_frame(), Some(3)));
    assert!(matches!(driver.handle_one_message(), Err(Error::Comm(0x0BAD))));
    assert_eq!(driver.take_last_nav_dop(), None);
}

#[test]
fn a_fault_while_skipping_is_reported() {
    let mut bytes = vec![0xB5, 0x62, 0x77, 0x01, 150, 0];
    bytes.extend([0x33u8; 152]);
    let mut driver = UbxDriver::new_with_interface(Flaky::new(&bytes, Some(4)));
    assert!(matches!(driver.handle_one_message(), Err(Error::Comm(0x0BAD))));
}

#[test]
fn a_fault_ends_a_drain() {
    let mut bytes = dop_frame();
    bytes.extend(dop_frame());
    // reads of the first frame: 2 sync, header, payload; the fault comes on
    // the second sync byte of the second frame
    let mut driver = UbxDriver::new_with_interface(Flaky::new(&bytes, Some(5)));
    assert!(matches!(driver.handle_all_messages(), Err(Error::Comm(0x0BAD))));
    assert!(driver.take_last_nav_dop().is_some());
}
