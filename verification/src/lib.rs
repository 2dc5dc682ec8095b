//! Driver core for u-blox GNSS receivers that speak the binary UBX protocol.
//!
//! The driver pulls bytes from a `DeviceInterface`, finds frames in them,
//! checks each frame's checksum, decodes the messages it knows and keeps the
//! latest of each kind until it is taken. Nothing in it blocks or allocates.

pub mod frame;
pub mod interface;
pub mod messages;
pub mod state;

pub use interface::ring::ByteBuffer;
pub use interface::serial::PortRead;
pub use interface::serial::SerialPort;
pub use interface::DeviceInterface;
pub use interface::SerialInterface;

use frame::checksum;
use frame::is_known;
use frame::lemma_scan_progress;
use frame::lemma_sync_end_bounds;
use frame::scan;
use frame::scan_body;
use frame::sync_end;
use frame::unique_id;
use frame::SYNC_1;
use messages::mon_hw_from_bytes;
use messages::nav_dop_from_bytes;
use messages::nav_pvt_from_bytes;
use messages::MonHardwareM8;
use messages::NavDopM8;
use messages::NavPosVelTimeM8;
use messages::UBX_CKSUM_LEN;
use messages::UBX_HEADER_LEN;
use messages::UBX_MIN_MSG_LEN;
use messages::UBX_MSG_ID_MON_HW;
use messages::UBX_MSG_ID_NAV_DOP;
use messages::UBX_MSG_ID_NAV_PVT;
use messages::UBX_MSG_LEN_MON_HW;
use messages::UBX_MSG_LEN_NAV_DOP;
use messages::UBX_MSG_LEN_NAV_PVT;
use messages::UBX_PRELUDE_BYTES;
use state::drain_ends;
use state::follows;
use state::lemma_follows_behind_header;
use state::one_handled;
use state::DriverView;
use vstd::prelude::*;

verus! {

/// Errors in this crate.
#[derive(Debug)]
pub enum Error<CommE> {
    /// The transport under the interface reported a fault.
    Comm(CommE),
    /// Nothing is buffered: there is nothing to do yet.
    NoData,
    /// The receiver is not responding.
    Unresponsive,
}

/// A driver for a receiver on a serial port.
pub fn new_serial_driver<UART: SerialPort>(uart: UART) -> (driver: UbxDriver<
    SerialInterface<UART>,
>)
    ensures
        driver@ == DriverView::idle(Seq::<u8>::empty(), true),
{
    let iface = SerialInterface::new(uart);
    UbxDriver::new_with_interface(iface)
}

/// Something that can let time pass, for a drain to pause on.
pub trait DelaySource {
    /// Waits for about `us` microseconds.
    fn delay_us(&mut self, us: u32);
}

/// A delay source that does not wait.
pub struct NoDelay;

impl DelaySource for NoDelay {
    fn delay_us(&mut self, _us: u32) {
    }
}

/// Microseconds that a paced drain waits after each frame it handled.
pub const DRAIN_PAUSE_US: u32 = 1000;

/// Size of the scratch buffer that a frame is read into: room for the
/// longest message the driver decodes, with header and checksum.
pub const READ_BUF_LEN: usize = 128;

/// The driver: an interface to the receiver, and the latest message of each
/// kind that came over it and was not taken yet.
pub struct UbxDriver<DI> {
    /// The device interface.
    di: DI,
    read_buf: [u8; READ_BUF_LEN],
    /// The last UBX-NAV-PVT received, if any.
    last_nav_pvt: Option<NavPosVelTimeM8>,
    /// The last UBX-MON-HW received, if any.
    last_mon_hw: Option<MonHardwareM8>,
    /// The last UBX-NAV-DOP received, if any.
    last_nav_dop: Option<NavDopM8>,
}

impl<DI, CommE> UbxDriver<DI> where DI: DeviceInterface<InterfaceError = Error<CommE>> {
    /// What the driver holds.
    pub closed spec fn view(&self) -> DriverView {
        DriverView {
            buffered: self.di.buffered(),
            fault_free: self.di.fault_free(),
            last_nav_pvt: self.last_nav_pvt,
            last_mon_hw: self.last_mon_hw,
            last_nav_dop: self.last_nav_dop,
        }
    }

    /// Whether `e` is an error that the driver's interface may report.
    pub closed spec fn reports(&self, e: DI::InterfaceError) -> bool {
        self.di.reports(e)
    }

    /// Whether a call that took the driver from `self` to `post` and
    /// returned `r` made no error of its own: the interface reports what it
    /// reported before, and an error returned is one of the interface's.
    pub open spec fn hands_on<T>(&self, post: &Self, r: Result<T, DI::InterfaceError>) -> bool {
        &&& forall|e: DI::InterfaceError|
            #![trigger post.reports(e)]
            #![trigger self.reports(e)]
            post.reports(e) == self.reports(e)
        &&& r matches Err(e) ==> self.reports(e)
    }

    /// The same, said of the interface itself.
    spec fn passes_on<T>(&self, post: &Self, r: Result<T, DI::InterfaceError>) -> bool {
        &&& forall|e: DI::InterfaceError|
            #![trigger post.di.reports(e)]
            #![trigger self.di.reports(e)]
            post.di.reports(e) == self.di.reports(e)
        &&& r matches Err(e) ==> self.di.reports(e)
    }

    /// A driver on `device_interface`, with no message received yet.
    pub fn new_with_interface(device_interface: DI) -> (driver: Self)
        ensures
            driver@ == DriverView::idle(
                device_interface.buffered(),
                device_interface.fault_free(),
            ),
            forall|e: DI::InterfaceError|
                #![trigger driver.reports(e)]
                #![trigger device_interface.reports(e)]
                driver.reports(e) == device_interface.reports(e),
    {
        Self {
            di: device_interface,
            read_buf: [0;READ_BUF_LEN],
            last_nav_pvt: None,
            last_mon_hw: None,
            last_nav_dop: None,
        }
    }

    /// Prepares the receiver. The receiver is used as it powers up: nothing
    /// is sent to it, and the driver is left as it was.
    pub fn setup(&mut self) -> (r: Result<(), DI::InterfaceError>)
        ensures
            r is Ok,
            final(self)@ == old(self)@,
            old(self).hands_on(final(self), r),
    {
        Ok(())
    }

    /// Hands out the last UBX-NAV-PVT and empties its slot.
    pub fn take_last_nav_pvt(&mut self) -> (taken: Option<NavPosVelTimeM8>)
        ensures
            (taken, final(self)@) == old(self)@.take_nav_pvt(),
            old(self).hands_on(final(self), Ok::<(), DI::InterfaceError>(())),
    {
        self.last_nav_pvt.take()
    }

    /// Hands out the last UBX-NAV-DOP and empties its slot.
    pub fn take_last_nav_dop(&mut self) -> (taken: Option<NavDopM8>)
        ensures
            (taken, final(self)@) == old(self)@.take_nav_dop(),
            old(self).hands_on(final(self), Ok::<(), DI::InterfaceError>(())),
    {
        self.last_nav_dop.take()
    }

    /// Hands out the last UBX-MON-HW and empties its slot.
    pub fn take_last_mon_hw(&mut self) -> (taken: Option<MonHardwareM8>)
        ensures
            (taken, final(self)@) == old(self)@.take_mon_hw(),
            old(self).hands_on(final(self), Ok::<(), DI::InterfaceError>(())),
    {
        self.last_mon_hw.take()
    }

    /// The two checksum bytes over `payload`, which is everything between
    /// the sync bytes and the checksum: header and payload.
    pub fn checksum_for_payload(payload: &[u8]) -> (ck: [u8; UBX_CKSUM_LEN])
        ensures
            ck[0] == checksum(payload@).0,
            ck[1] == checksum(payload@).1,
    {
        let mut ck: [u8; UBX_CKSUM_LEN] = [0;UBX_CKSUM_LEN];
        let mut i: usize = 0;
        while i < payload.len()
            invariant
                i <= payload@.len(),
                ck[0] == checksum(payload@.take(i as int)).0,
                ck[1] == checksum(payload@.take(i as int)).1,
            decreases payload@.len() - i,
        {
            assert(payload@.take(i + 1).drop_last() == payload@.take(i as int));
            ck[0] = ck[0].wrapping_add(payload[i]);
            ck[1] = ck[1].wrapping_add(ck[0]);
            i += 1;
        }
        assert(payload@.take(i as int) == payload@);
        ck
    }

    /// Reads payload and checksum of a message with `msg_len` payload bytes
    /// into the read buffer, behind the header that is already there, and
    /// checks the checksum. `available` is the number of bytes buffered.
    ///
    /// Returns `true` and the index in the read buffer at which the payload
    /// ends where the checksum holds, and `false` and 0 where it does not.
    /// With less than payload and checksum buffered, nothing is read, and
    /// `false` and 0 are returned as well: a caller that has to tell the two
    /// apart looks at `available` first.
    fn read_ubx_message(&mut self, msg_len: usize, available: usize) -> (r: Result<
        (bool, usize),
        DI::InterfaceError,
    >)
        requires
            UBX_HEADER_LEN + msg_len + UBX_CKSUM_LEN <= READ_BUF_LEN,
            available == old(self).di.buffered().len(),
        ensures
            final(self)@.same_slots(old(self)@),
            final(self)@.fault_free == old(self)@.fault_free,
            final(self).read_buf@.take(4) == old(self).read_buf@.take(4),
            old(self).passes_on(final(self), r),
            available < msg_len + 2 ==> r is Ok,
            match r {
                Ok((ck_ok, max_pay_idx)) => {
                    let s = old(self).di.buffered();
                    if s.len() < msg_len + 2 {
                        &&& !ck_ok
                        &&& max_pay_idx == 0
                        &&& final(self).di.buffered() == s
                    } else {
                        let ck = checksum(old(self).read_buf@.take(4) + s.take(msg_len as int));
                        &&& ck_ok == (ck.0 == s[msg_len as int] && ck.1 == s[msg_len + 1])
                        &&& max_pay_idx == if ck_ok {
                            4 + msg_len
                        } else {
                            0
                        }
                        &&& final(self).di.buffered() == s.skip(msg_len + 2)
                        &&& final(self).read_buf@.subrange(4, 4 + msg_len) == s.take(
                            msg_len as int,
                        )
                    }
                },
                Err(_) => {
                    &&& !old(self)@.fault_free
                    &&& final(self).di.buffered() == old(self).di.buffered()
                },
            },
    {
        let max_pay_idx: usize = UBX_HEADER_LEN + msg_len;
        let max_msg_idx: usize = max_pay_idx + UBX_CKSUM_LEN;
        let desired_count: usize = max_msg_idx - UBX_HEADER_LEN;
        if available < desired_count {
            // unable to read enough bytes to fill the message struct
            return Ok((false, 0));
        }
        let ghost s = self.di.buffered();
        {
            let (_, rest) = self.read_buf.split_at_mut(UBX_HEADER_LEN);
            let (body, _) = rest.split_at_mut(desired_count);
            self.di.read_many(body)?;
        }
        assert(self.read_buf@.take(max_pay_idx as int) == old(self).read_buf@.take(4) + s.take(
            msg_len as int,
        ));
        let calc_ck = Self::checksum_for_payload(&self.read_buf[0..max_pay_idx]);
        let matches = calc_ck[0] == self.read_buf[max_pay_idx] && calc_ck[1]
            == self.read_buf[max_pay_idx + 1];
        if matches {
            Ok((true, max_pay_idx))
        } else {
            Ok((false, 0))
        }
    }

    /// Reads a UBX-NAV-PVT message behind its header, and keeps it if its
    /// checksum holds. Returns how many frames that took: 1, or 0 where the
    /// frame is not all there yet.
    fn handle_msg_nav_pvt(&mut self, available: usize) -> (r: Result<usize, DI::InterfaceError>)
        requires
            available == old(self).di.buffered().len(),
            unique_id(old(self).read_buf@[0], old(self).read_buf@[1]) == UBX_MSG_ID_NAV_PVT,
        ensures
            follows(
                old(self)@,
                scan_body(old(self).read_buf@.take(4), old(self)@.buffered),
                final(self)@,
                r,
            ),
            old(self).passes_on(final(self), r),
            final(self).read_buf@.take(4) == old(self).read_buf@.take(4),
    {
        let ghost s = self.di.buffered();
        assert(s.skip(0) == s);
        if available < UBX_MSG_LEN_NAV_PVT + UBX_CKSUM_LEN {
            return Ok(0);
        }
        let (ck_ok, max_pay_idx) = self.read_ubx_message(UBX_MSG_LEN_NAV_PVT, available)?;
        if ck_ok {
            self.last_nav_pvt = nav_pvt_from_bytes(&self.read_buf[UBX_HEADER_LEN..max_pay_idx]);
        }
        Ok(1)
    }

    /// Reads a UBX-NAV-DOP message behind its header, and keeps it if its
    /// checksum holds. Returns how many frames that took: 1, or 0 where the
    /// frame is not all there yet.
    fn handle_msg_nav_dop(&mut self, available: usize) -> (r: Result<usize, DI::InterfaceError>)
        requires
            available == old(self).di.buffered().len(),
            unique_id(old(self).read_buf@[0], old(self).read_buf@[1]) == UBX_MSG_ID_NAV_DOP,
        ensures
            follows(
                old(self)@,
                scan_body(old(self).read_buf@.take(4), old(self)@.buffered),
                final(self)@,
                r,
            ),
            old(self).passes_on(final(self), r),
            final(self).read_buf@.take(4) == old(self).read_buf@.take(4),
    {
        let ghost s = self.di.buffered();
        assert(s.skip(0) == s);
        if available < UBX_MSG_LEN_NAV_DOP + UBX_CKSUM_LEN {
            return Ok(0);
        }
        let (ck_ok, max_pay_idx) = self.read_ubx_message(UBX_MSG_LEN_NAV_DOP, available)?;
        if ck_ok {
            self.last_nav_dop = nav_dop_from_bytes(&self.read_buf[UBX_HEADER_LEN..max_pay_idx]);
        }
        Ok(1)
    }

    /// Reads a UBX-MON-HW message behind its header, and keeps it if its
    /// checksum holds. Returns how many frames that took: 1, or 0 where the
    /// frame is not all there yet.
    fn handle_msg_mon_hw(&mut self, available: usize) -> (r: Result<usize, DI::InterfaceError>)
        requires
            available == old(self).di.buffered().len(),
            unique_id(old(self).read_buf@[0], old(self).read_buf@[1]) == UBX_MSG_ID_MON_HW,
        ensures
            follows(
                old(self)@,
                scan_body(old(self).read_buf@.take(4), old(self)@.buffered),
                final(self)@,
                r,
            ),
            old(self).passes_on(final(self), r),
            final(self).read_buf@.take(4) == old(self).read_buf@.take(4),
    {
        let ghost s = self.di.buffered();
        assert(s.skip(0) == s);
        if available < UBX_MSG_LEN_MON_HW + UBX_CKSUM_LEN {
            return Ok(0);
        }
        let (ck_ok, max_pay_idx) = self.read_ubx_message(UBX_MSG_LEN_MON_HW, available)?;
        if ck_ok {
            self.last_mon_hw = mon_hw_from_bytes(&self.read_buf[UBX_HEADER_LEN..max_pay_idx]);
        }
        Ok(1)
    }

    /// Reads past a message that the driver does not decode: the payload
    /// that the header in the read buffer declares, and the checksum.
    /// Returns how many frames that took: 1, or 0 where the frame is not all
    /// there yet, in which case nothing is read.
    fn skip_unhandled_msg(&mut self, available: usize) -> (r: Result<usize, DI::InterfaceError>)
        requires
            available == old(self).di.buffered().len(),
            !is_known(old(self).read_buf@[0], old(self).read_buf@[1]),
        ensures
            follows(
                old(self)@,
                scan_body(old(self).read_buf@.take(4), old(self)@.buffered),
                final(self)@,
                r,
            ),
            old(self).passes_on(final(self), r),
            final(self).read_buf@.take(4) == old(self).read_buf@.take(4),
    {
        let ghost s = self.di.buffered();
        assert(s.skip(0) == s);
        let msg_len: usize = (self.read_buf[2] as usize) + 0x100 * (self.read_buf[3] as usize);
        let total: usize = msg_len + UBX_CKSUM_LEN;
        if available < total {
            return Ok(0);
        }
        let mut left: usize = total;
        while left > 0
            invariant
                left <= total <= s.len(),
                s == old(self)@.buffered,
                scan_body(old(self).read_buf@.take(4), s).consumed == total,
                self.di.buffered() == s.skip(total - left),
                self@.same_slots(old(self)@),
                self@.fault_free == old(self)@.fault_free,
                self.read_buf@.take(4) == old(self).read_buf@.take(4),
                old(self).passes_on(self, Ok::<usize, DI::InterfaceError>(0)),
            decreases left,
        {
            let chunk: usize = if left < READ_BUF_LEN - UBX_HEADER_LEN {
                left
            } else {
                READ_BUF_LEN - UBX_HEADER_LEN
            };
            {
                let (_, rest) = self.read_buf.split_at_mut(UBX_HEADER_LEN);
                let (scratch, _) = rest.split_at_mut(chunk);
                self.di.read_many(scratch)?;
            }
            left -= chunk;
        }
        Ok(1)
    }

    /// Scans the `available` bytes that are buffered for one frame: looks
    /// for the sync bytes, reads the header behind them, and hands over to
    /// the handler of the message's kind.
    fn scan_one_message(&mut self, available: usize) -> (r: Result<usize, DI::InterfaceError>)
        requires
            available == old(self).di.buffered().len(),
        ensures
            follows(old(self)@, scan(old(self)@.buffered), final(self)@, r),
            old(self).passes_on(final(self), r),
    {
        let ghost s = self.di.buffered();
        let mut remaining: usize = available;
        let mut msg_idx: usize = 0;
        while msg_idx < 2
            invariant
                msg_idx <= 2,
                remaining <= s.len(),
                s == old(self).di.buffered(),
                self.di.buffered() == s.skip(s.len() - remaining),
                self@.same_slots(old(self)@),
                self@.fault_free == old(self)@.fault_free,
                old(self).passes_on(self, Ok::<usize, DI::InterfaceError>(0)),
                msg_idx == 0 ==> sync_end(s, 0) == sync_end(s, s.len() - remaining),
                msg_idx == 1 ==> remaining < s.len() && s[s.len() - remaining - 1] == SYNC_1
                    && sync_end(s, 0) == sync_end(s, s.len() - remaining - 1),
                msg_idx == 2 ==> sync_end(s, 0) == Some(s.len() - remaining),
            decreases remaining,
        {
            proof {
                lemma_sync_end_bounds(s, s.len() - remaining);
                if msg_idx == 1 {
                    lemma_sync_end_bounds(s, s.len() - remaining - 1);
                }
            }
            if remaining == 0 {
                return Ok(0);
            }
            let byte: u8 = self.di.read()?;
            remaining -= 1;
            if byte == UBX_PRELUDE_BYTES[msg_idx] {
                msg_idx += 1;
            } else {
                msg_idx = 0;
            }
        }
        let ghost start = s.len() - remaining;
        proof {
            lemma_sync_end_bounds(s, 0);
        }
        if remaining < UBX_HEADER_LEN {
            return Ok(0);
        }
        {
            let (header, _) = self.read_buf.split_at_mut(UBX_HEADER_LEN);
            self.di.read_many(header)?;
        }
        remaining -= UBX_HEADER_LEN;
        assert(self.read_buf@.take(4) == s.subrange(start, start + 4));
        assert(self.di.buffered() == s.skip(start + 4));
        let ghost mid = self@;
        let msg_unique_id: u16 = (self.read_buf[0] as u16) * 0x100 + (self.read_buf[1] as u16);
        let r = match msg_unique_id {
            UBX_MSG_ID_NAV_PVT => self.handle_msg_nav_pvt(remaining),
            UBX_MSG_ID_NAV_DOP => self.handle_msg_nav_dop(remaining),
            UBX_MSG_ID_MON_HW => self.handle_msg_mon_hw(remaining),
            _ => self.skip_unhandled_msg(remaining),
        };
        proof {
            lemma_follows_behind_header(old(self)@, mid, self@, start, r);
        }
        r
    }

    /// Takes frames from the receiver until a call of `handle_one_message`
    /// finds none to handle. Returns how many frames were handled.
    ///
    /// An error is that of the call that failed, handed on as it came. It
    /// ends the run at once, and the count is lost. On a fault-free
    /// interface there is none.
    pub fn handle_all_messages(&mut self) -> (r: Result<usize, DI::InterfaceError>)
        ensures
            old(self)@.fault_free ==> r is Ok,
            final(self)@.fault_free == old(self)@.fault_free,
            old(self).hands_on(final(self), r),
            exists|chunks: Seq<Seq<u8>>, last: Seq<u8>| #[trigger]
                drain_ends(old(self)@, chunks, last, final(self)@, r),
    {
        let mut no_delay = NoDelay;
        self.handle_all_messages_with_delay(&mut no_delay)
    }

    /// Does what `handle_all_messages` does, and waits `DRAIN_PAUSE_US` on
    /// `delay_source` after each frame it handled, so that a slow port can
    /// catch up.
    pub fn handle_all_messages_with_delay<D: DelaySource>(&mut self, delay_source: &mut D) -> (r:
        Result<usize, DI::InterfaceError>)
        ensures
            old(self)@.fault_free ==> r is Ok,
            final(self)@.fault_free == old(self)@.fault_free,
            old(self).hands_on(final(self), r),
            exists|chunks: Seq<Seq<u8>>, last: Seq<u8>| #[trigger]
                drain_ends(old(self)@, chunks, last, final(self)@, r),
    {
        let mut msg_count: usize = 0;
        let ghost mut chunks: Seq<Seq<u8>> = Seq::empty();
        while msg_count < usize::MAX
            invariant
                msg_count == chunks.len(),
                old(self)@.all_handled(chunks),
                self@ == old(self)@.drained(chunks),
                self@.fault_free == old(self)@.fault_free,
                old(self).hands_on(self, Ok::<usize, DI::InterfaceError>(0)),
            decreases usize::MAX - msg_count,
        {
            let ghost mid = self@;
            let step = self.handle_one_message();
            let ghost incoming = choose|incoming: Seq<u8>| #[trigger]
                one_handled(mid, incoming, self@, step);
            proof {
                lemma_scan_progress(mid.buffered + incoming);
            }
            match step {
                Ok(handled_count) => {
                    if handled_count > 0 {
                        msg_count += handled_count;
                        proof {
                            assert(chunks.push(incoming).drop_last() == chunks);
                            chunks = chunks.push(incoming);
                        }
                        delay_source.delay_us(DRAIN_PAUSE_US);
                    } else {
                        proof {
                            assert(drain_ends(
                                old(self)@,
                                chunks,
                                incoming,
                                self@,
                                Ok::<usize, DI::InterfaceError>(msg_count),
                            ));
                        }
                        return Ok(msg_count);
                    }
                },
                Err(e) => {
                    proof {
                        assert(drain_ends(
                            old(self)@,
                            chunks,
                            incoming,
                            self@,
                            Err::<usize, DI::InterfaceError>(e),
                        ));
                    }
                    return Err(e);
                },
            }
        }
        proof {
            assert(drain_ends(
                old(self)@,
                chunks,
                Seq::<u8>::empty(),
                self@,
                Ok::<usize, DI::InterfaceError>(msg_count),
            ));
        }
        Ok(msg_count)
    }

    /// Tries to take one frame from the receiver.
    ///
    /// Fills the interface's buffer first. With fewer bytes buffered than
    /// the shortest frame has, nothing more happens. Otherwise the buffered
    /// bytes are scanned once, as `scan` says: a frame that is found is read
    /// whole; if it is of a known kind and its checksum holds, it is decoded
    /// into its slot, in place of what was there; a frame of another kind,
    /// or with a wrong checksum, is dropped.
    ///
    /// Returns 1 if a frame was read whole, whatever became of it, and 0 if
    /// none was. An error is one that the interface reported on a read, and
    /// is handed on as it came; on a fault-free interface, such as the
    /// serial interface, there is none.
    pub fn handle_one_message(&mut self) -> (r: Result<usize, DI::InterfaceError>)
        ensures
            old(self)@.fault_free ==> r is Ok,
            final(self)@.fault_free == old(self)@.fault_free,
            old(self).hands_on(final(self), r),
            exists|incoming: Seq<u8>| #[trigger] one_handled(old(self)@, incoming, final(self)@, r),
    {
        // fill our incoming message buffer to avoid overruns
        let available: usize = self.di.fill();
        let ghost s = self.di.buffered();
        let ghost incoming = s.skip(old(self)@.buffered.len() as int);
        proof {
            assert(s == old(self)@.buffered + incoming);
            assert(s.skip(0) == s);
        }
        if available < UBX_MIN_MSG_LEN {
            assert(one_handled(old(self)@, incoming, self@, Ok::<usize, DI::InterfaceError>(0)));
            return Ok(0);
        }
        let r = self.scan_one_message(available);
        assert(one_handled(old(self)@, incoming, self@, r));
        r
    }
}

} // verus!
