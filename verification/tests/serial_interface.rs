//! The serial interface: filling from a port, and reading what was buffered.

use std::cell::RefCell;
use std::collections::VecDeque;
use std::rc::Rc;
use ublox_core::DeviceInterface;
use ublox_core::Error;
use ublox_core::PortRead;
use ublox_core::SerialInterface;
use ublox_core::SerialPort;

/// What a scripted poll gives.
#[derive(Clone, Copy)]
enum Polled {
    Byte(u8),
    Nothing,
    Fault,
}

/// A port that plays a script and then has nothing waiting.
#[derive(Clone)]
struct ScriptedPort {
    script: Rc<RefCell<VecDeque<Polled>>>,
    polls: Rc<RefCell<usize>>,
}

impl ScriptedPort {
    fn new() -> Self {
        ScriptedPort { script: Rc::new(RefCell::new(VecDeque::new())), polls: Rc::new(RefCell::new(0)) }
    }

    fn bytes(&self, bytes: &[u8]) {
        self.script.borrow_mut().extend(bytes.iter().map(|b| Polled::Byte(*b)));
    }

    fn faults(&self, n: usize) {
        self.script.borrow_mut().extend((0..n).map(|_| Polled::Fault));
    }

    fn nothing(&self) {
        self.script.borrow_mut().push_back(Polled::Nothing);
    }

    fn left(&self) -> usize {
        self.script.borrow().len()
    }

    fn polls(&self) -> usize {
        *self.polls.borrow()
    }
}

impl SerialPort for ScriptedPort {
    type Error = u8;

    fn read(&mut self) -> PortRead<u8> {
        *self.polls.borrow_mut() += 1;
        match self.script.borrow_mut().pop_front() {
            Some(Polled::Byte(b)) => PortRead::Byte(b),
            Some(Polled::Fault) => PortRead::Fault(0xEE),
            Some(Polled::Nothing) | None => PortRead::WouldBlock,
        }
    }
}

fn read_all(iface: &mut SerialInterface<ScriptedPort>) -> Vec<u8> {
    let mut out = Vec::new();
    while let Ok(b) = iface.read() {
        out.push(b);
    }
    out
}

#[test]
fn a_new_interface_has_nothing_to_read() {
    let port = ScriptedPort::new();
    let mut iface = SerialInterface::new(port.clone());
    assert!(matches!(iface.read(), Err(Error::NoData)));
    assert_eq!(port.polls(), 0);
}

#[test]
fn fill_takes_what_is_waiting_and_stops() {
    let port = ScriptedPort::new();
    port.bytes(&[1, 2, 3]);
    let mut iface = SerialInterface::new(port.clone());
    assert_eq!(iface.fill(), 3);
    assert_eq!(port.polls(), 4);
    assert_eq!(read_all(&mut iface), vec![1, 2, 3]);
}

#[test]
fn fill_on_a_silent_port_polls_once() {
    let port = ScriptedPort::new();
    let mut iface = SerialInterface::new(port.clone());
    assert_eq!(iface.fill(), 0);
    assert_eq!(port.polls(), 1);
}

#[test]
fn fill_stops_at_the_first_poll_with_nothing_waiting() {
    let port = ScriptedPort::new();
    port.bytes(&[1, 2]);
    port.nothing();
    port.bytes(&[3]);
    let mut iface = SerialInterface::new(port.clone());
    assert_eq!(iface.fill(), 2);
    assert_eq!(port.left(), 1);
    assert_eq!(iface.fill(), 3);
    assert_eq!(read_all(&mut iface), vec![1, 2, 3]);
}

#[test]
fn fill_keeps_what_was_buffered_in_front() {
    let port = ScriptedPort::new();
    port.bytes(&[10, 11]);
    let mut iface = SerialInterface::new(port.clone());
    assert_eq!(iface.fill(), 2);
    assert!(matches!(iface.read(), Ok(10)));
    port.bytes(&[12, 13]);
    assert_eq!(iface.fill(), 3);
    assert_eq!(read_all(&mut iface), vec![11, 12, 13]);
}

#[test]
fn fill_never_takes_more_than_the_buffer_holds() {
    let port = ScriptedPort::new();
    let bytes: Vec<u8> = (0..300).map(|i| (i % 251) as u8).collect();
    port.bytes(&bytes);
    let mut iface = SerialInterface::new(port.clone());
    assert_eq!(iface.fill(), 256);
    assert_eq!(port.polls(), 256);
    assert_eq!(port.left(), 44);
    assert_eq!(iface.fill(), 256);
    assert_eq!(port.polls(), 256);
    let mut first = [0u8; 100];
    assert!(matches!(iface.read_many(&mut first), Ok(100)));
    assert_eq!(&first[..], &bytes[..100]);
    assert_eq!(iface.fill(), 200);
    assert_eq!(read_all(&mut iface), bytes[100..].to_vec());
}

#[test]
fn fill_tolerates_a_hundred_faults_in_a_row() {
    let port = ScriptedPort::new();
    port.faults(100);
    port.bytes(&[5]);
    let mut iface = SerialInterface::new(port.clone());
    assert_eq!(iface.fill(), 1);
    assert_eq!(read_all(&mut iface), vec![5]);
}

#[test]
fn fill_gives_up_on_the_hundred_and_first_fault_in_a_row() {
    let port = ScriptedPort::new();
    port.bytes(&[4]);
    port.faults(101);
    port.bytes(&[5]);
    let mut iface = SerialInterface::new(port.clone());
    assert_eq!(iface.fill(), 1);
    assert_eq!(port.polls(), 102);
    assert_eq!(port.left(), 1);
    assert_eq!(iface.fill(), 2);
    assert_eq!(read_all(&mut iface), vec![4, 5]);
}

#[test]
fn a_byte_clears_the_count_of_faults() {
    let port = ScriptedPort::new();
    port.faults(100);
    port.bytes(&[1]);
    port.faults(100);
    port.bytes(&[2]);
    port.faults(60);
    port.bytes(&[3]);
    let mut iface = SerialInterface::new(port.clone());
    assert_eq!(iface.fill(), 3);
    assert_eq!(port.left(), 0);
    assert_eq!(read_all(&mut iface), vec![1, 2, 3]);
}

#[test]
fn read_takes_one_byte_at_a_time() {
    let port = ScriptedPort::new();
    port.bytes(&[0xB5, 0x62]);
    let mut iface = SerialInterface::new(port.clone());
    iface.fill();
    assert!(matches!(iface.read(), Ok(0xB5)));
    assert!(matches!(iface.read(), Ok(0x62)));
    assert!(matches!(iface.read(), Err(Error::NoData)));
    assert!(matches!(iface.read(), Err(Error::NoData)));
}

#[test]
fn read_never_polls_the_port() {
    let port = ScriptedPort::new();
    port.bytes(&[1, 2, 3]);
    let mut iface = SerialInterface::new(port.clone());
    assert!(matches!(iface.read(), Err(Error::NoData)));
    let mut two = [0u8; 2];
    assert!(matches!(iface.read_many(&mut two), Ok(0)));
    assert_eq!(port.polls(), 0);
    assert_eq!(port.left(), 3);
}

#[test]
fn read_many_is_all_or_nothing() {
    let port = ScriptedPort::new();
    port.bytes(&[1, 2, 3, 4, 5]);
    let mut iface = SerialInterface::new(port.clone());
    assert_eq!(iface.fill(), 5);
    let mut six = [0xCC; 6];
    assert!(matches!(iface.read_many(&mut six), Ok(0)));
    assert_eq!(six, [0xCC; 6]);
    let mut three = [0u8; 3];
    assert!(matches!(iface.read_many(&mut three), Ok(3)));
    assert_eq!(three, [1, 2, 3]);
    let mut more = [0xCC; 3];
    assert!(matches!(iface.read_many(&mut more), Ok(0)));
    assert_eq!(more, [0xCC; 3]);
    let mut two = [0u8; 2];
    assert!(matches!(iface.read_many(&mut two), Ok(2)));
    assert_eq!(two, [4, 5]);
    assert!(matches!(iface.read(), Err(Error::NoData)));
}

#[test]
fn read_many_of_nothing_takes_nothing() {
    let port = ScriptedPort::new();
    port.bytes(&[9]);
    let mut iface = SerialInterface::new(port.clone());
    iface.fill();
    let mut none: [u8; 0] = [];
    assert!(matches!(iface.read_many(&mut none), Ok(0)));
    assert!(matches!(iface.read(), Ok(9)));
}

#[test]
fn read_many_takes_a_whole_buffer() {
    let port = ScriptedPort::new();
    let bytes: Vec<u8> = (0..256).map(|i| (255 - i) as u8).collect();
    port.bytes(&bytes);
    let mut iface = SerialInterface::new(port.clone());
    assert_eq!(iface.fill(), 256);
    let mut all = [0u8; 256];
    assert!(matches!(iface.read_many(&mut all), Ok(256)));
    assert_eq!(all.to_vec(), bytes);
    assert_eq!(iface.fill(), 0);
}
