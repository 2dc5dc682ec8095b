//! The receiver on a serial port.

use super::ring::ByteBuffer;
use super::ring::BUFFER_CAPACITY;
use super::DeviceInterface;
use crate::Error;
use vstd::prelude::*;

verus! {

/// How many polls in a row may fail before a fill gives up.
pub const MAX_FAULTS_IN_A_ROW: usize = 100;

/// What one poll of a serial port gave.
#[derive(Debug, PartialEq, Eq)]
pub enum PortRead<E> {
    /// A byte was waiting.
    Byte(u8),
    /// Nothing is waiting yet.
    WouldBlock,
    /// The port reported a fault, such as an overrun.
    Fault(E),
}

/// A serial port that can be polled for one byte at a time.
pub trait SerialPort {
    /// The port's own fault type.
    type Error;

    /// Polls the port. Must not block.
    fn read(&mut self) -> PortRead<Self::Error>;
}

/// Where a fill stands.
#[derive(Debug, Clone, Copy, PartialEq, Eq)]
pub struct FillProgress {
    /// How many more bytes this fill may take.
    pub room: usize,
    /// How many polls have failed since the last byte.
    pub faults: usize,
}

impl FillProgress {
    /// How a fill that stands at `self` goes on after a poll, or `None`
    /// where the poll ends it. A byte uses up room and clears the fault
    /// count. A port with nothing waiting ends the fill. A fault is counted,
    /// and ends the fill once more than `MAX_FAULTS_IN_A_ROW` have come in a
    /// row.
    pub open spec fn after<E>(self, polled: PortRead<E>) -> Option<FillProgress> {
        match polled {
            PortRead::Byte(_) => {
                let room = if self.room > 0 {
                    (self.room - 1) as usize
                } else {
                    0
                };
                Some(FillProgress { room, faults: 0 })
            },
            PortRead::WouldBlock => None,
            PortRead::Fault(_) => if self.faults < MAX_FAULTS_IN_A_ROW {
                Some(FillProgress { room: self.room, faults: (self.faults + 1) as usize })
            } else {
                None
            },
        }
    }
}

/// What is buffered after a poll: a byte joins the queue at its end, and
/// drives the oldest byte out where the queue is full; anything else leaves
/// the queue as it was.
pub open spec fn absorbed<E>(buffered: Seq<u8>, polled: PortRead<E>) -> Seq<u8> {
    match polled {
        PortRead::Byte(byte) => if buffered.len() < BUFFER_CAPACITY {
            buffered.push(byte)
        } else {
            buffered.skip(1).push(byte)
        },
        _ => buffered,
    }
}

/// What is buffered and where a fill stands after the polls `polls`, for a
/// fill that began with `start` buffered and is still going on: it had room
/// before each of the polls, and none of them ended it. `None` where the
/// fill would have ended before the last of them.
pub open spec fn fill_going<E>(start: Seq<u8>, polls: Seq<PortRead<E>>) -> Option<
    (Seq<u8>, FillProgress),
>
    decreases polls.len(),
{
    if polls.len() == 0 {
        Some((start, FillProgress { room: (BUFFER_CAPACITY - start.len()) as usize, faults: 0 }))
    } else {
        match fill_going(start, polls.drop_last()) {
            Some((buffered, progress)) => if progress.room > 0 {
                match progress.after(polls.last()) {
                    Some(next) => Some((absorbed(buffered, polls.last()), next)),
                    None => None,
                }
            } else {
                None
            },
            None => None,
        }
    }
}

/// Whether a fill that began with `start` buffered, and whose polls gave
/// `polls`, ends with `end` buffered. A fill ends when it is out of room, or
/// on the poll that `FillProgress::after` says is its last, and not before.
pub open spec fn fill_ends<E>(start: Seq<u8>, polls: Seq<PortRead<E>>, end: Seq<u8>) -> bool {
    ||| {
        &&& fill_going(start, polls) matches Some((buffered, progress))
        &&& progress.room == 0
        &&& buffered == end
    }
    ||| {
        &&& polls.len() > 0
        &&& fill_going(start, polls.drop_last()) matches Some((buffered, progress))
        &&& progress.room > 0
        &&& progress.after(polls.last()) is None
        &&& absorbed(buffered, polls.last()) == end
    }
}

/// The receiver on a serial port, with the queue of bytes read from it.
pub struct SerialInterface<SER> {
    /// The port the receiver is on.
    serial: SER,
    buffer: ByteBuffer,
}

impl<SER: SerialPort> SerialInterface<SER> {
    /// The interface on `serial_port`, with nothing buffered.
    pub fn new(serial_port: SER) -> (iface: Self)
        ensures
            iface.buffered() == Seq::<u8>::empty(),
    {
        Self { serial: serial_port, buffer: ByteBuffer::new() }
    }

    /// Takes the result of one poll of the port into account: queues the
    /// byte, if there is one, and says how the fill that made the poll goes
    /// on. `fill` is a loop of polls around this.
    pub fn absorb(&mut self, polled: PortRead<SER::Error>, progress: FillProgress) -> (next: Option<
        FillProgress,
    >)
        ensures
            final(self).buffered() == absorbed(old(self).buffered(), polled),
            next == progress.after(polled),
    {
        match polled {
            PortRead::Byte(byte) => {
                self.buffer.push_overwrite(byte);
                let room: usize = if progress.room > 0 {
                    progress.room - 1
                } else {
                    0
                };
                Some(FillProgress { room, faults: 0 })
            },
            PortRead::WouldBlock => None,
            PortRead::Fault(_) => {
                if progress.faults < MAX_FAULTS_IN_A_ROW {
                    Some(FillProgress { room: progress.room, faults: progress.faults + 1 })
                } else {
                    None
                }
            },
        }
    }
}

impl<SER: SerialPort> DeviceInterface for SerialInterface<SER> {
    type InterfaceError = Error<SER::Error>;

    closed spec fn buffered(&self) -> Seq<u8> {
        self.buffer@
    }

    open spec fn fault_free(&self) -> bool {
        true
    }

    /// The one error of this interface is that nothing is buffered.
    open spec fn reports(&self, e: Self::InterfaceError) -> bool {
        e is NoData
    }

    /// Polls the port until the buffer is full, the port has nothing
    /// waiting, or too many polls in a row have failed: there is a run of
    /// polls over which the fill went on as `absorb` says, and on the last
    /// of which it ended.
    fn fill(&mut self) -> (available: usize)
        ensures
            available <= BUFFER_CAPACITY,
            exists|polls: Seq<PortRead<SER::Error>>| #[trigger]
                fill_ends(old(self).buffered(), polls, final(self).buffered()),
    {
        let mut progress = FillProgress { room: BUFFER_CAPACITY - self.buffer.len(), faults: 0 };
        let ghost mut polls: Seq<PortRead<SER::Error>> = Seq::empty();
        while progress.room > 0
            invariant
                self.buffer@.len() + progress.room <= BUFFER_CAPACITY,
                progress.faults <= MAX_FAULTS_IN_A_ROW,
                old(self).buffer@.is_prefix_of(self.buffer@),
                fill_going(old(self).buffer@, polls) == Some((self.buffer@, progress)),
            decreases progress.room, MAX_FAULTS_IN_A_ROW - progress.faults,
        {
            let polled = self.serial.read();
            let ghost seen = polled;
            proof {
                assert(polls.push(seen).drop_last() == polls);
            }
            match self.absorb(polled, progress) {
                Some(next) => {
                    progress = next;
                    proof {
                        polls = polls.push(seen);
                    }
                },
                None => {
                    assert(fill_ends(old(self).buffered(), polls.push(seen), self.buffered()));
                    return self.buffer.len();
                },
            }
        }
        let available: usize = self.buffer.len();
        assert(fill_ends(old(self).buffered(), polls, self.buffered()));
        available
    }

    /// Never fails while a byte is buffered; reports `Error::NoData` when
    /// none is.
    fn read(&mut self) -> (r: Result<u8, Self::InterfaceError>)
        ensures
            old(self).buffered().len() == 0 ==> r == Err::<u8, Self::InterfaceError>(Error::NoData),
    {
        match self.buffer.pop() {
            Some(byte) => Ok(byte),
            None => Err(Error::NoData),
        }
    }

    /// Never fails; the short count is 0.
    fn read_many(&mut self, buffer: &mut [u8]) -> (r: Result<usize, Self::InterfaceError>)
        ensures
            r is Ok,
            old(self).buffered().len() < old(buffer)@.len() ==> r == Ok::<
                usize,
                Self::InterfaceError,
            >(0),
    {
        let wanted: usize = buffer.len();
        if self.buffer.len() < wanted {
            return Ok(0);
        }
        let mut taken: usize = 0;
        while taken < wanted
            invariant
                taken <= wanted,
                wanted == buffer@.len(),
                wanted <= old(self).buffer@.len(),
                self.buffer@ == old(self).buffer@.skip(taken as int),
                buffer@.take(taken as int) == old(self).buffer@.take(taken as int),
            decreases wanted - taken,
        {
            if let Some(byte) = self.buffer.pop() {
                buffer[taken] = byte;
            }
            taken += 1;
        }
        Ok(wanted)
    }
}

} // verus!
