//! The UBX frame as a sequence of bytes: its checksum, how a frame is laid
//! out, and what one scan of a byte stream finds in it.
//!
//! A frame is the two sync bytes, a header of class, id and little-endian
//! payload length, the payload, and a two-byte checksum over header and
//! payload. Everything here is specification; the driver is stated over it.

use crate::messages::le_u16;
use crate::messages::lemma_le_bytes_len;
use crate::messages::lemma_le_u16;
use crate::messages::lemma_mon_hw_round_trip;
use crate::messages::lemma_nav_dop_round_trip;
use crate::messages::lemma_nav_pvt_round_trip;
use crate::messages::mon_hw_decode;
use crate::messages::mon_hw_encode;
use crate::messages::nav_dop_decode;
use crate::messages::nav_dop_encode;
use crate::messages::nav_pvt_decode;
use crate::messages::nav_pvt_encode;
use crate::messages::u16_le_bytes;
use crate::messages::MonHardwareM8;
use crate::messages::NavDopM8;
use crate::messages::NavPosVelTimeM8;
use crate::messages::UBX_MSG_ID_MON_HW;
use crate::messages::UBX_MSG_ID_NAV_DOP;
use crate::messages::UBX_MSG_ID_NAV_PVT;
use crate::messages::UBX_MSG_LEN_MON_HW;
use crate::messages::UBX_MSG_LEN_NAV_DOP;
use crate::messages::UBX_MSG_LEN_NAV_PVT;
use vstd::prelude::*;

verus! {

/// First sync byte.
pub const SYNC_1: u8 = 0xB5;

/// Second sync byte.
pub const SYNC_2: u8 = 0x62;

/// The two checksum bytes of `bytes`: both start at zero; each byte is added
/// to the first, and the first is then added to the second, both modulo 256.
pub open spec fn checksum(bytes: Seq<u8>) -> (u8, u8)
    decreases bytes.len(),
{
    if bytes.len() == 0 {
        (0u8, 0u8)
    } else {
        let before = checksum(bytes.drop_last());
        let ck_a = ((before.0 + bytes.last()) % 0x100) as u8;
        let ck_b = ((before.1 + ck_a) % 0x100) as u8;
        (ck_a, ck_b)
    }
}

/// Class and id as one number, class in the high byte.
pub open spec fn unique_id(class: u8, id: u8) -> u16 {
    (class * 0x100 + id) as u16
}

/// Whether the driver decodes messages of this class and id.
pub open spec fn is_known(class: u8, id: u8) -> bool {
    let uid = unique_id(class, id);
    uid == UBX_MSG_ID_NAV_PVT || uid == UBX_MSG_ID_NAV_DOP || uid == UBX_MSG_ID_MON_HW
}

/// The payload length that the scanner reads after a header: the fixed
/// length of a known message, whatever the header declares, and the declared
/// length of any other.
pub open spec fn payload_len(class: u8, id: u8, declared: int) -> int {
    let uid = unique_id(class, id);
    if uid == UBX_MSG_ID_NAV_PVT {
        UBX_MSG_LEN_NAV_PVT as int
    } else if uid == UBX_MSG_ID_NAV_DOP {
        UBX_MSG_LEN_NAV_DOP as int
    } else if uid == UBX_MSG_ID_MON_HW {
        UBX_MSG_LEN_MON_HW as int
    } else {
        declared
    }
}

/// A decoded message of one of the kinds that the driver keeps.
pub enum UbxMessage {
    NavPvt(NavPosVelTimeM8),
    NavDop(NavDopM8),
    MonHw(MonHardwareM8),
}

/// The message that a payload of the given class and id decodes to; none for
/// a class and id that the driver does not know.
pub open spec fn decode(class: u8, id: u8, payload: Seq<u8>) -> Option<UbxMessage> {
    let uid = unique_id(class, id);
    if uid == UBX_MSG_ID_NAV_PVT {
        Some(UbxMessage::NavPvt(nav_pvt_decode(payload)))
    } else if uid == UBX_MSG_ID_NAV_DOP {
        Some(UbxMessage::NavDop(nav_dop_decode(payload)))
    } else if uid == UBX_MSG_ID_MON_HW {
        Some(UbxMessage::MonHw(mon_hw_decode(payload)))
    } else {
        None
    }
}

/// What the checksum of a frame covers: the header, which is class, id and
/// the length of the payload, and the payload.
pub open spec fn covered(class: u8, id: u8, payload: Seq<u8>) -> Seq<u8>
    recommends
        payload.len() <= 0xFFFF,
{
    seq![class, id] + u16_le_bytes(payload.len() as u16) + payload
}

/// The bytes of a frame that carries `payload` under the given class and id
/// and closes with the two bytes `ck`, whether they are its checksum or not.
pub open spec fn frame_with(class: u8, id: u8, payload: Seq<u8>, ck: (u8, u8)) -> Seq<u8>
    recommends
        payload.len() <= 0xFFFF,
{
    seq![SYNC_1, SYNC_2] + covered(class, id, payload) + seq![ck.0, ck.1]
}

/// The bytes of the frame that carries `payload` under the given class and
/// id, with its checksum.
pub open spec fn frame(class: u8, id: u8, payload: Seq<u8>) -> Seq<u8>
    recommends
        payload.len() <= 0xFFFF,
{
    frame_with(class, id, payload, checksum(covered(class, id, payload)))
}

/// The index just behind the first sync pair that the scanner accepts at or
/// after `from`, if there is one.
///
/// The scanner has no memory of a byte it rejected: a first sync byte that is
/// not followed by the second is dropped together with the byte that follows
/// it, even where that byte is a first sync byte itself.
pub open spec fn sync_end(s: Seq<u8>, from: int) -> Option<int>
    decreases s.len() - from,
{
    if from < 0 || from + 2 > s.len() {
        None
    } else if s[from] != SYNC_1 {
        sync_end(s, from + 1)
    } else if s[from + 1] == SYNC_2 {
        Some(from + 2)
    } else {
        sync_end(s, from + 2)
    }
}

/// What one scan made of the bytes it was given.
pub struct Scan {
    /// How many bytes the scan took from the front.
    pub consumed: int,
    /// 1 where a whole frame was taken, 0 where none was.
    pub handled: int,
    /// The message of that frame, where it is of a known kind and its
    /// checksum holds.
    pub message: Option<UbxMessage>,
}

/// What the scanner makes of the bytes `s` that follow a header.
///
/// The payload is as long as `payload_len` says. With less than payload and
/// checksum in `s` nothing is taken and no frame counts. Otherwise payload
/// and checksum are taken and the frame counts; it yields a message where it
/// is of a known kind and the checksum over header and payload equals the
/// two bytes that follow the payload.
pub open spec fn scan_body(header: Seq<u8>, s: Seq<u8>) -> Scan
    recommends
        header.len() == 4,
{
    let n = payload_len(header[0], header[1], le_u16(header, 2) as int);
    if s.len() < n + 2 {
        Scan { consumed: 0, handled: 0, message: None }
    } else {
        let ck = checksum(header + s.take(n));
        let message = if ck.0 == s[n] && ck.1 == s[n + 1] {
            decode(header[0], header[1], s.take(n))
        } else {
            None
        };
        Scan { consumed: n + 2, handled: 1, message }
    }
}

/// One scan of the buffered bytes `s`.
///
/// Bytes are dropped up to and including the first accepted sync pair. With
/// no pair, every byte is dropped. With fewer than the four bytes of a
/// header behind the pair, the scan ends there and no frame counts.
/// Otherwise the header is taken, and `scan_body` says what becomes of the
/// rest.
pub open spec fn scan(s: Seq<u8>) -> Scan {
    match sync_end(s, 0) {
        None => Scan { consumed: s.len() as int, handled: 0, message: None },
        Some(start) => {
            if s.len() - start < 4 {
                Scan { consumed: start, handled: 0, message: None }
            } else {
                let body = scan_body(s.subrange(start, start + 4), s.skip(start + 4));
                Scan { consumed: start + 4 + body.consumed, ..body }
            }
        },
    }
}

/// An accepted sync pair ends at least two bytes behind where the search
/// began, and inside the sequence.
pub proof fn lemma_sync_end_bounds(s: Seq<u8>, from: int)
    requires
        0 <= from,
    ensures
        sync_end(s, from) matches Some(end) ==> from + 2 <= end <= s.len() && s[end - 2] == SYNC_1
            && s[end - 1] == SYNC_2,
    decreases s.len() - from,
{
    if from + 2 > s.len() {
    } else if s[from] != SYNC_1 {
        lemma_sync_end_bounds(s, from + 1);
    } else if s[from + 1] == SYNC_2 {
    } else {
        lemma_sync_end_bounds(s, from + 2);
    }
}

/// A scan takes no more bytes than there are, and a frame that counts has
/// taken at least the eight bytes of the shortest frame: scanning cannot
/// stall on a frame it reports.
pub proof fn lemma_scan_progress(s: Seq<u8>)
    ensures
        0 <= scan(s).consumed <= s.len(),
        scan(s).handled == 0 || scan(s).handled == 1,
        scan(s).handled == 1 ==> scan(s).consumed >= 8,
        scan(s).handled == 0 ==> scan(s).message is None,
{
    lemma_sync_end_bounds(s, 0);
}

/// The sum of the bytes of `s`.
pub open spec fn byte_sum(s: Seq<u8>) -> int
    decreases s.len(),
{
    if s.len() == 0 {
        0
    } else {
        byte_sum(s.drop_last()) + s.last()
    }
}

/// The first checksum byte is the sum of the bytes, modulo 256.
pub proof fn lemma_first_checksum_byte(s: Seq<u8>)
    ensures
        checksum(s).0 == byte_sum(s) % 0x100,
    decreases s.len(),
{
    if s.len() > 0 {
        lemma_first_checksum_byte(s.drop_last());
    }
}

/// Replacing one byte moves the sum by the difference of the two bytes.
pub proof fn lemma_byte_sum_update(s: Seq<u8>, i: int, b: u8)
    requires
        0 <= i < s.len(),
    ensures
        byte_sum(s.update(i, b)) == byte_sum(s) - s[i] + b,
    decreases s.len(),
{
    if i == s.len() - 1 {
        assert(s.update(i, b).drop_last() =~= s.drop_last());
    } else {
        assert(s.update(i, b).drop_last() =~= s.drop_last().update(i, b));
        lemma_byte_sum_update(s.drop_last(), i, b);
    }
}

/// No change of a single byte goes unnoticed: it changes the first checksum
/// byte.
pub proof fn lemma_checksum_detects_one_byte(s: Seq<u8>, i: int, b: u8)
    requires
        0 <= i < s.len(),
        b != s[i],
    ensures
        checksum(s.update(i, b)).0 != checksum(s).0,
{
    lemma_first_checksum_byte(s);
    lemma_first_checksum_byte(s.update(i, b));
    lemma_byte_sum_update(s, i, b);
}

/// Whether `payload` can travel under `class` and `id`: it fits the 16-bit
/// length field, and where the class and id are of a known message, it has
/// that message's length.
pub open spec fn fits(class: u8, id: u8, payload: Seq<u8>) -> bool {
    payload.len() <= 0xFFFF && payload.len() == payload_len(class, id, payload.len() as int)
}

/// What `scan` reads of a frame, by index: the sync bytes, the header, the
/// payload and the two closing bytes.
proof fn lemma_frame_layout(class: u8, id: u8, payload: Seq<u8>, ck: (u8, u8))
    requires
        payload.len() <= 0xFFFF,
    ensures
        ({
            let f = frame_with(class, id, payload, ck);
            let n = payload.len() as int;
            &&& f.len() == n + 8
            &&& f[0] == SYNC_1
            &&& f[1] == SYNC_2
            &&& f[2] == class
            &&& f[3] == id
            &&& le_u16(f, 4) == n
            &&& f.subrange(2, 6 + n) == covered(class, id, payload)
            &&& f.subrange(6, 6 + n) == payload
            &&& f[6 + n] == ck.0
            &&& f[7 + n] == ck.1
        }),
{
    let f = frame_with(class, id, payload, ck);
    let n = payload.len() as int;
    lemma_le_bytes_len();
    assert(f.subrange(2, 6 + n) == covered(class, id, payload));
    assert(f.subrange(4, 6) == u16_le_bytes(n as u16));
    lemma_le_u16(f, 4, n as u16);
    assert(f.subrange(6, 6 + n) == payload);
}

/// A frame at the front of the buffered bytes is taken whole by one scan,
/// whatever follows it and whatever its two closing bytes are, and counts.
/// It yields its message where it is of a known kind and the closing bytes
/// are its checksum, and nothing otherwise.
pub proof fn lemma_scan_frame_with(
    class: u8,
    id: u8,
    payload: Seq<u8>,
    ck: (u8, u8),
    rest: Seq<u8>,
)
    requires
        fits(class, id, payload),
    ensures
        frame_with(class, id, payload, ck).len() == payload.len() + 8,
        scan(frame_with(class, id, payload, ck) + rest) == (Scan {
            consumed: payload.len() as int + 8,
            handled: 1,
            message: if checksum(covered(class, id, payload)) == ck {
                decode(class, id, payload)
            } else {
                None
            },
        }),
{
    let f = frame_with(class, id, payload, ck);
    let n = payload.len() as int;
    let s = f + rest;
    lemma_frame_layout(class, id, payload, ck);
    assert(s[0] == f[0] && s[1] == f[1]);
    assert(sync_end(s, 0) == Some(2int));
    let header = s.subrange(2, 6);
    assert(header == f.subrange(2, 6));
    assert(header[0] == class && header[1] == id);
    assert(header[2] == f[4] && header[3] == f[5]);
    let body = s.skip(6);
    assert(body.take(n) == payload);
    assert(header + body.take(n) == f.subrange(2, 6 + n));
    assert(body[n] == f[6 + n] && body[n + 1] == f[7 + n]);
}

/// A frame with its own checksum at the front of the buffered bytes is
/// taken whole by one scan, whatever follows it, and counts. It yields its
/// message where it is of a known kind, and nothing where it is not.
pub proof fn lemma_scan_frame(class: u8, id: u8, payload: Seq<u8>, rest: Seq<u8>)
    requires
        fits(class, id, payload),
    ensures
        frame(class, id, payload).len() == payload.len() + 8,
        scan(frame(class, id, payload) + rest) == (Scan {
            consumed: payload.len() as int + 8,
            handled: 1,
            message: decode(class, id, payload),
        }),
{
    lemma_scan_frame_with(class, id, payload, checksum(covered(class, id, payload)), rest);
}

/// A frame in which one payload byte was changed on the way is the frame of
/// the changed payload under the checksum of the payload as it was sent,
/// and that is not the checksum of what arrived.
pub proof fn lemma_damaged_frame(class: u8, id: u8, payload: Seq<u8>, i: int, b: u8)
    requires
        payload.len() <= 0xFFFF,
        0 <= i < payload.len(),
        b != payload[i],
    ensures
        frame(class, id, payload).update(6 + i, b) == frame_with(
            class,
            id,
            payload.update(i, b),
            checksum(covered(class, id, payload)),
        ),
        checksum(covered(class, id, payload.update(i, b))) != checksum(
            covered(class, id, payload),
        ),
{
    let sent = covered(class, id, payload);
    lemma_le_bytes_len();
    assert(covered(class, id, payload.update(i, b)) == sent.update(4 + i, b));
    assert(sent[4 + i] == payload[i]);
    lemma_checksum_detects_one_byte(sent, 4 + i, b);
    assert(frame(class, id, payload).update(6 + i, b) =~= frame_with(
        class,
        id,
        payload.update(i, b),
        checksum(sent),
    ));
}

/// A frame of a known kind in which one payload byte was changed on the way
/// is still taken whole and counts, but yields no message: the checksum no
/// longer holds.
pub proof fn lemma_scan_corrupt_frame(
    class: u8,
    id: u8,
    payload: Seq<u8>,
    rest: Seq<u8>,
    i: int,
    b: u8,
)
    requires
        is_known(class, id),
        fits(class, id, payload),
        0 <= i < payload.len(),
        b != payload[i],
    ensures
        frame(class, id, payload).len() == payload.len() + 8,
        scan(frame(class, id, payload).update(6 + i, b) + rest) == (Scan {
            consumed: payload.len() as int + 8,
            handled: 1,
            message: None,
        }),
{
    lemma_damaged_frame(class, id, payload, i, b);
    lemma_scan_frame(class, id, payload, rest);
    lemma_scan_frame_with(
        class,
        id,
        payload.update(i, b),
        checksum(covered(class, id, payload)),
        rest,
    );
}

/// A UBX-NAV-PVT record that is put into a frame comes out of a scan of that
/// frame as it went in.
pub proof fn lemma_nav_pvt_frame_round_trip(m: NavPosVelTimeM8, rest: Seq<u8>)
    ensures
        scan(frame(0x01, 0x07, nav_pvt_encode(m)) + rest) == (Scan {
            consumed: 100,
            handled: 1,
            message: Some(UbxMessage::NavPvt(m)),
        }),
{
    lemma_nav_pvt_round_trip(m);
    lemma_scan_frame(0x01, 0x07, nav_pvt_encode(m), rest);
}

/// A UBX-NAV-DOP record that is put into a frame comes out of a scan of that
/// frame as it went in.
pub proof fn lemma_nav_dop_frame_round_trip(m: NavDopM8, rest: Seq<u8>)
    ensures
        scan(frame(0x01, 0x04, nav_dop_encode(m)) + rest) == (Scan {
            consumed: 26,
            handled: 1,
            message: Some(UbxMessage::NavDop(m)),
        }),
{
    lemma_nav_dop_round_trip(m);
    lemma_scan_frame(0x01, 0x04, nav_dop_encode(m), rest);
}

/// A UBX-MON-HW record that is put into a frame comes out of a scan of that
/// frame as it went in.
pub proof fn lemma_mon_hw_frame_round_trip(m: MonHardwareM8, rest: Seq<u8>)
    ensures
        scan(frame(0x0A, 0x09, mon_hw_encode(m)) + rest) == (Scan {
            consumed: 68,
            handled: 1,
            message: Some(UbxMessage::MonHw(m)),
        }),
{
    lemma_mon_hw_round_trip(m);
    lemma_scan_frame(0x0A, 0x09, mon_hw_encode(m), rest);
}

} // verus!
