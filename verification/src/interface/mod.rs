//! How the driver reaches the receiver.

pub mod ring;
pub mod serial;

pub use self::serial::SerialInterface;

use vstd::prelude::*;

verus! {

/// A way of getting the receiver's bytes: a buffer that `fill` tops up from
/// the device and that `read` and `read_many` take from, without blocking.
pub trait DeviceInterface {
    /// What `read` and `read_many` report when they fail.
    type InterfaceError;

    /// The bytes pulled from the device and not yet read, oldest first.
    ///
    /// An implementation that Verus is to check says what they are; left
    /// as it stands here, nothing is known of them.
    open spec fn buffered(&self) -> Seq<u8> {
        arbitrary()
    }

    /// Whether this interface never reports an error while it holds the
    /// bytes that a read asks for. An interface that serves every read from
    /// memory says `true`; one that may touch the device on a read says
    /// `false`, as this does.
    open spec fn fault_free(&self) -> bool {
        false
    }

    /// Whether `e` is an error that this interface may report. The driver
    /// hands on the errors of its interface and makes none of its own: what
    /// it returns is always an error of which this holds.
    ///
    /// An implementation that Verus is to check says which errors these are;
    /// left as it stands here, any error may be reported.
    open spec fn reports(&self, e: Self::InterfaceError) -> bool {
        true
    }

    /// Pulls bytes that the device has ready into the buffer. Returns the
    /// number of bytes that can now be read. Call it before reading.
    ///
    /// Nothing buffered is lost or reordered: what was there stays in front
    /// of what came in.
    fn fill(&mut self) -> (available: usize)
        ensures
            old(self).buffered().is_prefix_of(final(self).buffered()),
            available == final(self).buffered().len(),
            final(self).fault_free() == old(self).fault_free(),
            forall|e: Self::InterfaceError|
                #![trigger final(self).reports(e)]
                #![trigger old(self).reports(e)]
                final(self).reports(e) == old(self).reports(e),
    ;

    /// Takes the oldest buffered byte. A failure takes nothing, and there is
    /// one whenever nothing is buffered.
    fn read(&mut self) -> (r: Result<u8, Self::InterfaceError>)
        ensures
            final(self).fault_free() == old(self).fault_free(),
            forall|e: Self::InterfaceError|
                #![trigger final(self).reports(e)]
                #![trigger old(self).reports(e)]
                final(self).reports(e) == old(self).reports(e),
            match r {
                Ok(byte) => {
                    &&& old(self).buffered().len() > 0
                    &&& byte == old(self).buffered()[0]
                    &&& final(self).buffered() == old(self).buffered().skip(1)
                },
                Err(e) => {
                    &&& old(self).reports(e)
                    &&& final(self).buffered() == old(self).buffered()
                    &&& old(self).buffered().len() == 0 || !old(self).fault_free()
                },
            },
    ;

    /// Takes as many buffered bytes as `buffer` has room for, all or nothing.
    ///
    /// With that many bytes buffered, they are moved into `buffer` and their
    /// number is returned. With fewer, nothing is taken, `buffer` is left as
    /// it was, and the number returned is less than `buffer.len()`: look at
    /// it before using `buffer`. A failure takes nothing either.
    fn read_many(&mut self, buffer: &mut [u8]) -> (r: Result<usize, Self::InterfaceError>)
        ensures
            final(buffer)@.len() == old(buffer)@.len(),
            final(self).fault_free() == old(self).fault_free(),
            forall|e: Self::InterfaceError|
                #![trigger final(self).reports(e)]
                #![trigger old(self).reports(e)]
                final(self).reports(e) == old(self).reports(e),
            match r {
                Ok(n) => if old(self).buffered().len() >= old(buffer)@.len() {
                    &&& n == old(buffer)@.len()
                    &&& final(buffer)@ == old(self).buffered().take(n as int)
                    &&& final(self).buffered() == old(self).buffered().skip(n as int)
                } else {
                    &&& n < old(buffer)@.len()
                    &&& final(buffer)@ == old(buffer)@
                    &&& final(self).buffered() == old(self).buffered()
                },
                Err(e) => {
                    &&& old(self).reports(e)
                    &&& final(self).buffered() == old(self).buffered()
                    &&& !old(self).fault_free()
                },
            },
    ;
}

} // verus!
