//! The UBX messages that the driver decodes, and their layout on the wire.
//!
//! Every field is taken from its documented byte offset, least significant
//! byte first, so a record never depends on how the compiler lays a struct
//! out in memory.

use vstd::prelude::*;

verus! {

/// Bytes of the header that follows the two sync bytes: class, id and the
/// 16-bit payload length.
pub const UBX_HEADER_LEN: usize = 4;

/// Bytes of the checksum that closes a frame.
pub const UBX_CKSUM_LEN: usize = 2;

/// The two sync bytes that open every frame.
pub const UBX_PRELUDE_BYTES: [u8; 2] = [0xB5, 0x62];

/// The shortest frame there is: sync bytes, header and checksum around an
/// empty payload.
pub const UBX_MIN_MSG_LEN: usize = 8;

/// Class and id of UBX-NAV-PVT, class in the high byte.
pub const UBX_MSG_ID_NAV_PVT: u16 = 0x0107;

/// Class and id of UBX-NAV-DOP, class in the high byte.
pub const UBX_MSG_ID_NAV_DOP: u16 = 0x0104;

/// Class and id of UBX-MON-HW, class in the high byte.
pub const UBX_MSG_ID_MON_HW: u16 = 0x0A09;

/// Payload bytes of UBX-NAV-PVT.
pub const UBX_MSG_LEN_NAV_PVT: usize = 92;

/// Payload bytes of UBX-MON-HW.
pub const UBX_MSG_LEN_MON_HW: usize = 60;

/// Payload bytes of UBX-NAV-DOP.
pub const UBX_MSG_LEN_NAV_DOP: usize = 18;

/// The unsigned 16-bit value whose little-endian bytes stand at `at` in `s`.
pub open spec fn le_u16(s: Seq<u8>, at: int) -> u16 {
    (s[at] + 0x100 * s[at + 1]) as u16
}

/// The unsigned 32-bit value whose little-endian bytes stand at `at` in `s`.
pub open spec fn le_u32(s: Seq<u8>, at: int) -> u32 {
    (s[at] + 0x100 * s[at + 1] + 0x1_0000 * s[at + 2] + 0x100_0000 * s[at + 3]) as u32
}

/// The two's-complement 16-bit value whose little-endian bytes stand at `at`.
pub open spec fn le_i16(s: Seq<u8>, at: int) -> i16 {
    let raw = le_u16(s, at);
    if raw < 0x8000 {
        raw as i16
    } else {
        (raw - 0x1_0000) as i16
    }
}

/// The two's-complement 32-bit value whose little-endian bytes stand at `at`.
pub open spec fn le_i32(s: Seq<u8>, at: int) -> i32 {
    let raw = le_u32(s, at);
    if raw < 0x8000_0000 {
        raw as i32
    } else {
        (raw - 0x1_0000_0000) as i32
    }
}

/// The little-endian bytes of an unsigned 16-bit value.
#[verifier::opaque]
pub open spec fn u16_le_bytes(v: u16) -> Seq<u8> {
    seq![(v % 0x100) as u8, (v / 0x100) as u8]
}

/// The little-endian bytes of an unsigned 32-bit value.
#[verifier::opaque]
pub open spec fn u32_le_bytes(v: u32) -> Seq<u8> {
    seq![
        (v % 0x100) as u8,
        (v / 0x100 % 0x100) as u8,
        (v / 0x1_0000 % 0x100) as u8,
        (v / 0x100_0000) as u8,
    ]
}

/// The little-endian two's-complement bytes of a signed 16-bit value.
#[verifier::opaque]
pub open spec fn i16_le_bytes(v: i16) -> Seq<u8> {
    if v >= 0 {
        u16_le_bytes(v as u16)
    } else {
        u16_le_bytes((v + 0x1_0000) as u16)
    }
}

/// The little-endian two's-complement bytes of a signed 32-bit value.
#[verifier::opaque]
pub open spec fn i32_le_bytes(v: i32) -> Seq<u8> {
    if v >= 0 {
        u32_le_bytes(v as u32)
    } else {
        u32_le_bytes((v + 0x1_0000_0000) as u32)
    }
}

/// Little-endian bytes have the width of their type.
pub proof fn lemma_le_bytes_len()
    ensures
        forall|v: u16| (#[trigger] u16_le_bytes(v)).len() == 2,
        forall|v: u32| (#[trigger] u32_le_bytes(v)).len() == 4,
        forall|v: i16| (#[trigger] i16_le_bytes(v)).len() == 2,
        forall|v: i32| (#[trigger] i32_le_bytes(v)).len() == 4,
{
    reveal(u16_le_bytes);
    reveal(u32_le_bytes);
    reveal(i16_le_bytes);
    reveal(i32_le_bytes);
}

/// Where the little-endian bytes of `v` stand at `at` in `s`, `v` is read
/// there.
pub proof fn lemma_le_u16(s: Seq<u8>, at: int, v: u16)
    requires
        0 <= at,
        at + 2 <= s.len(),
        s.subrange(at, at + 2) == u16_le_bytes(v),
    ensures
        le_u16(s, at) == v,
{
    reveal(u16_le_bytes);
    assert(s.subrange(at, at + 2)[0] == s[at] && s.subrange(at, at + 2)[1] == s[at + 1]);
}

/// Where the little-endian bytes of `v` stand at `at` in `s`, `v` is read
/// there.
pub proof fn lemma_le_u32(s: Seq<u8>, at: int, v: u32)
    requires
        0 <= at,
        at + 4 <= s.len(),
        s.subrange(at, at + 4) == u32_le_bytes(v),
    ensures
        le_u32(s, at) == v,
{
    reveal(u32_le_bytes);
    let piece = s.subrange(at, at + 4);
    assert(piece[0] == s[at] && piece[1] == s[at + 1] && piece[2] == s[at + 2] && piece[3] == s[at
        + 3]);
}

/// Where the little-endian bytes of `v` stand at `at` in `s`, `v` is read
/// there.
pub proof fn lemma_le_i16(s: Seq<u8>, at: int, v: i16)
    requires
        0 <= at,
        at + 2 <= s.len(),
        s.subrange(at, at + 2) == i16_le_bytes(v),
    ensures
        le_i16(s, at) == v,
{
    reveal(i16_le_bytes);
    if v >= 0 {
        lemma_le_u16(s, at, v as u16);
    } else {
        lemma_le_u16(s, at, (v + 0x1_0000) as u16);
    }
}

/// Where the little-endian bytes of `v` stand at `at` in `s`, `v` is read
/// there.
pub proof fn lemma_le_i32(s: Seq<u8>, at: int, v: i32)
    requires
        0 <= at,
        at + 4 <= s.len(),
        s.subrange(at, at + 4) == i32_le_bytes(v),
    ensures
        le_i32(s, at) == v,
{
    reveal(i32_le_bytes);
    if v >= 0 {
        lemma_le_u32(s, at, v as u32);
    } else {
        lemma_le_u32(s, at, (v + 0x1_0000_0000) as u32);
    }
}

fn u16_at(buf: &[u8], at: usize) -> (v: u16)
    requires
        at + 2 <= buf@.len(),
    ensures
        v == le_u16(buf@, at as int),
{
    (buf[at] as u16) + 0x100 * (buf[at + 1] as u16)
}

fn u32_at(buf: &[u8], at: usize) -> (v: u32)
    requires
        at + 4 <= buf@.len(),
    ensures
        v == le_u32(buf@, at as int),
{
    (buf[at] as u32) + 0x100 * (buf[at + 1] as u32) + 0x1_0000 * (buf[at + 2] as u32) + 0x100_0000
        * (buf[at + 3] as u32)
}

fn i16_at(buf: &[u8], at: usize) -> (v: i16)
    requires
        at + 2 <= buf@.len(),
    ensures
        v == le_i16(buf@, at as int),
{
    let raw: u16 = u16_at(buf, at);
    if raw < 0x8000 {
        raw as i16
    } else {
        (raw - 0x8000) as i16 + i16::MIN
    }
}

fn i32_at(buf: &[u8], at: usize) -> (v: i32)
    requires
        at + 4 <= buf@.len(),
    ensures
        v == le_i32(buf@, at as int),
{
    let raw: u32 = u32_at(buf, at);
    if raw < 0x8000_0000 {
        raw as i32
    } else {
        (raw - 0x8000_0000) as i32 + i32::MIN
    }
}

/// UBX-NAV-PVT (class 0x01, id 0x07): navigation position, velocity and time
/// solution.
#[derive(Copy, Clone, Debug, PartialEq, Eq)]
pub struct NavPosVelTimeM8 {
    /// GPS time of week of the navigation epoch (ms).
    pub itow: u32,
    /// Year (UTC).
    pub year: u16,
    /// Month, 1 to 12 (UTC).
    pub month: u8,
    /// Day of month, 1 to 31 (UTC).
    pub day: u8,
    /// Hour of day, 0 to 23 (UTC).
    pub hour: u8,
    /// Minute of hour, 0 to 59 (UTC).
    pub min: u8,
    /// Second of minute, 0 to 60 (UTC).
    pub sec: u8,
    /// Validity flags.
    pub validity_flags: u8,
    /// Time accuracy estimate (ns, UTC).
    pub time_accuracy: u32,
    /// Fraction of second, -1e9 to 1e9 (ns, UTC).
    pub nanosecond: i32,
    /// GNSS fix type: 0 no fix, 1 dead reckoning only, 2 2D fix, 3 3D fix,
    /// 4 GNSS and dead reckoning combined, 5 time only.
    pub fix_type: u8,
    /// Fix status flags.
    pub flags: u8,
    /// Additional flags.
    pub flags2: u8,
    /// Number of satellites used in the solution.
    pub num_satellites: u8,
    /// Longitude (1e-7 degrees).
    pub lon: i32,
    /// Latitude (1e-7 degrees).
    pub lat: i32,
    /// Height above the ellipsoid (mm).
    pub height: i32,
    /// Height above mean sea level (mm).
    pub height_msl: i32,
    /// Horizontal accuracy estimate (mm).
    pub h_accuracy: u32,
    /// Vertical accuracy estimate (mm).
    pub v_accuracy: u32,
    /// NED north velocity (mm/s).
    pub vel_north: i32,
    /// NED east velocity (mm/s).
    pub vel_east: i32,
    /// NED down velocity (mm/s).
    pub vel_down: i32,
    /// Ground speed (mm/s).
    pub ground_speed: i32,
    /// Heading of motion (1e-5 degrees).
    pub heading_motion: i32,
    /// Speed accuracy estimate (mm/s).
    pub speed_accuracy: u32,
    /// Heading accuracy estimate, motion and vehicle (1e-5 degrees).
    pub heading_accuracy: u32,
    /// Position dilution of precision (0.01).
    pub pos_dop: u16,
    /// Reserved.
    pub reserved1: [u8; 6],
    /// Heading of vehicle (1e-5 degrees).
    pub heading_vehicle: i32,
    /// Magnetic declination (1e-2 degrees).
    pub mag_dec: i16,
    /// Magnetic declination accuracy (1e-2 degrees).
    pub mag_accuracy: u16,
}

/// The UBX-NAV-PVT record that the first 92 bytes of `p` hold.
pub open spec fn nav_pvt_decode(p: Seq<u8>) -> NavPosVelTimeM8 {
    NavPosVelTimeM8 {
        itow: le_u32(p, 0),
        year: le_u16(p, 4),
        month: p[6],
        day: p[7],
        hour: p[8],
        min: p[9],
        sec: p[10],
        validity_flags: p[11],
        time_accuracy: le_u32(p, 12),
        nanosecond: le_i32(p, 16),
        fix_type: p[20],
        flags: p[21],
        flags2: p[22],
        num_satellites: p[23],
        lon: le_i32(p, 24),
        lat: le_i32(p, 28),
        height: le_i32(p, 32),
        height_msl: le_i32(p, 36),
        h_accuracy: le_u32(p, 40),
        v_accuracy: le_u32(p, 44),
        vel_north: le_i32(p, 48),
        vel_east: le_i32(p, 52),
        vel_down: le_i32(p, 56),
        ground_speed: le_i32(p, 60),
        heading_motion: le_i32(p, 64),
        speed_accuracy: le_u32(p, 68),
        heading_accuracy: le_u32(p, 72),
        pos_dop: le_u16(p, 76),
        reserved1: [p[78], p[79], p[80], p[81], p[82], p[83]],
        heading_vehicle: le_i32(p, 84),
        mag_dec: le_i16(p, 88),
        mag_accuracy: le_u16(p, 90),
    }
}

/// Decodes a UBX-NAV-PVT payload. Succeeds exactly when `buf` holds at least
/// the 92 bytes of the payload, and reads no byte beyond them.
pub fn nav_pvt_from_bytes(buf: &[u8]) -> (r: Option<NavPosVelTimeM8>)
    ensures
        buf@.len() >= UBX_MSG_LEN_NAV_PVT ==> r == Some(nav_pvt_decode(buf@)),
        buf@.len() < UBX_MSG_LEN_NAV_PVT ==> r is None,
{
    if buf.len() < UBX_MSG_LEN_NAV_PVT {
        return None;
    }
    let msg = NavPosVelTimeM8 {
        itow: u32_at(buf, 0),
        year: u16_at(buf, 4),
        month: buf[6],
        day: buf[7],
        hour: buf[8],
        min: buf[9],
        sec: buf[10],
        validity_flags: buf[11],
        time_accuracy: u32_at(buf, 12),
        nanosecond: i32_at(buf, 16),
        fix_type: buf[20],
        flags: buf[21],
        flags2: buf[22],
        num_satellites: buf[23],
        lon: i32_at(buf, 24),
        lat: i32_at(buf, 28),
        height: i32_at(buf, 32),
        height_msl: i32_at(buf, 36),
        h_accuracy: u32_at(buf, 40),
        v_accuracy: u32_at(buf, 44),
        vel_north: i32_at(buf, 48),
        vel_east: i32_at(buf, 52),
        vel_down: i32_at(buf, 56),
        ground_speed: i32_at(buf, 60),
        heading_motion: i32_at(buf, 64),
        speed_accuracy: u32_at(buf, 68),
        heading_accuracy: u32_at(buf, 72),
        pos_dop: u16_at(buf, 76),
        reserved1: [buf[78], buf[79], buf[80], buf[81], buf[82], buf[83]],
        heading_vehicle: i32_at(buf, 84),
        mag_dec: i16_at(buf, 88),
        mag_accuracy: u16_at(buf, 90),
    };
    Some(msg)
}

/// The 92 payload bytes of a UBX-NAV-PVT record.
pub open spec fn nav_pvt_encode(m: NavPosVelTimeM8) -> Seq<u8> {
    u32_le_bytes(m.itow) + u16_le_bytes(m.year) + seq![
        m.month,
        m.day,
        m.hour,
        m.min,
        m.sec,
        m.validity_flags,
    ] + u32_le_bytes(m.time_accuracy) + i32_le_bytes(m.nanosecond) + seq![
        m.fix_type,
        m.flags,
        m.flags2,
        m.num_satellites,
    ] + i32_le_bytes(m.lon) + i32_le_bytes(m.lat) + i32_le_bytes(m.height) + i32_le_bytes(
        m.height_msl,
    ) + u32_le_bytes(m.h_accuracy) + u32_le_bytes(m.v_accuracy) + i32_le_bytes(m.vel_north)
        + i32_le_bytes(m.vel_east) + i32_le_bytes(m.vel_down) + i32_le_bytes(m.ground_speed)
        + i32_le_bytes(m.heading_motion) + u32_le_bytes(m.speed_accuracy) + u32_le_bytes(
        m.heading_accuracy,
    ) + u16_le_bytes(m.pos_dop) + m.reserved1@ + i32_le_bytes(m.heading_vehicle) + i16_le_bytes(
        m.mag_dec,
    ) + u16_le_bytes(m.mag_accuracy)
}

/// Decoding the payload bytes of a UBX-NAV-PVT record gives the record back,
/// field for field.
pub proof fn lemma_nav_pvt_round_trip(m: NavPosVelTimeM8)
    ensures
        nav_pvt_encode(m).len() == UBX_MSG_LEN_NAV_PVT,
        nav_pvt_decode(nav_pvt_encode(m)) == m,
{
    let p = nav_pvt_encode(m);
    let d = nav_pvt_decode(p);
    lemma_le_bytes_len();
    assert(p.subrange(0, 4) == u32_le_bytes(m.itow));
    lemma_le_u32(p, 0, m.itow);
    assert(p.subrange(4, 6) == u16_le_bytes(m.year));
    lemma_le_u16(p, 4, m.year);
    assert(p.subrange(12, 16) == u32_le_bytes(m.time_accuracy));
    lemma_le_u32(p, 12, m.time_accuracy);
    assert(p.subrange(16, 20) == i32_le_bytes(m.nanosecond));
    lemma_le_i32(p, 16, m.nanosecond);
    assert(p.subrange(24, 28) == i32_le_bytes(m.lon));
    lemma_le_i32(p, 24, m.lon);
    assert(p.subrange(28, 32) == i32_le_bytes(m.lat));
    lemma_le_i32(p, 28, m.lat);
    assert(p.subrange(32, 36) == i32_le_bytes(m.height));
    lemma_le_i32(p, 32, m.height);
    assert(p.subrange(36, 40) == i32_le_bytes(m.height_msl));
    lemma_le_i32(p, 36, m.height_msl);
    assert(p.subrange(40, 44) == u32_le_bytes(m.h_accuracy));
    lemma_le_u32(p, 40, m.h_accuracy);
    assert(p.subrange(44, 48) == u32_le_bytes(m.v_accuracy));
    lemma_le_u32(p, 44, m.v_accuracy);
    assert(p.subrange(48, 52) == i32_le_bytes(m.vel_north));
    lemma_le_i32(p, 48, m.vel_north);
    assert(p.subrange(52, 56) == i32_le_bytes(m.vel_east));
    lemma_le_i32(p, 52, m.vel_east);
    assert(p.subrange(56, 60) == i32_le_bytes(m.vel_down));
    lemma_le_i32(p, 56, m.vel_down);
    assert(p.subrange(60, 64) == i32_le_bytes(m.ground_speed));
    lemma_le_i32(p, 60, m.ground_speed);
    assert(p.subrange(64, 68) == i32_le_bytes(m.heading_motion));
    lemma_le_i32(p, 64, m.heading_motion);
    assert(p.subrange(68, 72) == u32_le_bytes(m.speed_accuracy));
    lemma_le_u32(p, 68, m.speed_accuracy);
    assert(p.subrange(72, 76) == u32_le_bytes(m.heading_accuracy));
    lemma_le_u32(p, 72, m.heading_accuracy);
    assert(p.subrange(76, 78) == u16_le_bytes(m.pos_dop));
    lemma_le_u16(p, 76, m.pos_dop);
    assert(p.subrange(84, 88) == i32_le_bytes(m.heading_vehicle));
    lemma_le_i32(p, 84, m.heading_vehicle);
    assert(p.subrange(88, 90) == i16_le_bytes(m.mag_dec));
    lemma_le_i16(p, 88, m.mag_dec);
    assert(p.subrange(90, 92) == u16_le_bytes(m.mag_accuracy));
    lemma_le_u16(p, 90, m.mag_accuracy);
    assert(d.reserved1 =~= m.reserved1);
}

/// UBX-MON-HW (class 0x0A, id 0x09): hardware status.
#[derive(Copy, Clone, Debug, PartialEq, Eq)]
pub struct MonHardwareM8 {
    /// Mask of pins set as peripheral or PIO.
    pub pin_sel: u32,
    /// Mask of pins set as bank A or B.
    pub pin_bank: u32,
    /// Mask of pins set as input or output.
    pub pin_direction: u32,
    /// Mask of pin values, low or high.
    pub pin_values: u32,
    /// Noise level as measured by the GPS core.
    pub noise_per_ms: u16,
    /// AGC monitor, 0 to 8191.
    pub agc_count: u16,
    /// State of the antenna supervisor: 0 init, 1 unknown, 2 ok, 3 short,
    /// 4 open.
    pub ant_status: u8,
    /// Power status of the antenna: 0 off, 1 on, 2 unknown.
    pub ant_power: u8,
    /// Flags.
    pub flags: u8,
    /// Reserved.
    pub reserved: u8,
    /// Mask of pins that the virtual pin manager uses.
    pub used_mask: u32,
    /// Pin mapping of each of the 17 physical pins.
    pub pin_maps: [u8; 17],
    /// CW jamming indicator, from 0 (none) to 255 (strong).
    pub jam_ind: u8,
    /// Reserved.
    pub reserved2: [u8; 2],
    /// Mask of pin values using the PIO interrupt.
    pub pin_irq: u32,
    /// Mask of pin values using the PIO pull-high resistor.
    pub pull_high: u32,
    /// Mask of pin values using the PIO pull-low resistor.
    pub pull_low: u32,
}

/// The UBX-MON-HW record that the first 60 bytes of `p` hold.
pub open spec fn mon_hw_decode(p: Seq<u8>) -> MonHardwareM8 {
    MonHardwareM8 {
        pin_sel: le_u32(p, 0),
        pin_bank: le_u32(p, 4),
        pin_direction: le_u32(p, 8),
        pin_values: le_u32(p, 12),
        noise_per_ms: le_u16(p, 16),
        agc_count: le_u16(p, 18),
        ant_status: p[20],
        ant_power: p[21],
        flags: p[22],
        reserved: p[23],
        used_mask: le_u32(p, 24),
        pin_maps: [
            p[28],
            p[29],
            p[30],
            p[31],
            p[32],
            p[33],
            p[34],
            p[35],
            p[36],
            p[37],
            p[38],
            p[39],
            p[40],
            p[41],
            p[42],
            p[43],
            p[44],
        ],
        jam_ind: p[45],
        reserved2: [p[46], p[47]],
        pin_irq: le_u32(p, 48),
        pull_high: le_u32(p, 52),
        pull_low: le_u32(p, 56),
    }
}

/// Decodes a UBX-MON-HW payload. Succeeds exactly when `buf` holds at least
/// the 60 bytes of the payload, and reads no byte beyond them.
pub fn mon_hw_from_bytes(buf: &[u8]) -> (r: Option<MonHardwareM8>)
    ensures
        buf@.len() >= UBX_MSG_LEN_MON_HW ==> r == Some(mon_hw_decode(buf@)),
        buf@.len() < UBX_MSG_LEN_MON_HW ==> r is None,
{
    if buf.len() < UBX_MSG_LEN_MON_HW {
        return None;
    }
    let msg = MonHardwareM8 {
        pin_sel: u32_at(buf, 0),
        pin_bank: u32_at(buf, 4),
        pin_direction: u32_at(buf, 8),
        pin_values: u32_at(buf, 12),
        noise_per_ms: u16_at(buf, 16),
        agc_count: u16_at(buf, 18),
        ant_status: buf[20],
        ant_power: buf[21],
        flags: buf[22],
        reserved: buf[23],
        used_mask: u32_at(buf, 24),
        pin_maps: [
            buf[28],
            buf[29],
            buf[30],
            buf[31],
            buf[32],
            buf[33],
            buf[34],
            buf[35],
            buf[36],
            buf[37],
            buf[38],
            buf[39],
            buf[40],
            buf[41],
            buf[42],
            buf[43],
            buf[44],
        ],
        jam_ind: buf[45],
        reserved2: [buf[46], buf[47]],
        pin_irq: u32_at(buf, 48),
        pull_high: u32_at(buf, 52),
        pull_low: u32_at(buf, 56),
    };
    Some(msg)
}

/// The 60 payload bytes of a UBX-MON-HW record.
pub open spec fn mon_hw_encode(m: MonHardwareM8) -> Seq<u8> {
    u32_le_bytes(m.pin_sel) + u32_le_bytes(m.pin_bank) + u32_le_bytes(m.pin_direction)
        + u32_le_bytes(m.pin_values) + u16_le_bytes(m.noise_per_ms) + u16_le_bytes(m.agc_count)
        + seq![m.ant_status, m.ant_power, m.flags, m.reserved] + u32_le_bytes(m.used_mask)
        + m.pin_maps@ + seq![m.jam_ind] + m.reserved2@ + u32_le_bytes(m.pin_irq) + u32_le_bytes(
        m.pull_high,
    ) + u32_le_bytes(m.pull_low)
}

/// Decoding the payload bytes of a UBX-MON-HW record gives the record back,
/// field for field.
pub proof fn lemma_mon_hw_round_trip(m: MonHardwareM8)
    ensures
        mon_hw_encode(m).len() == UBX_MSG_LEN_MON_HW,
        mon_hw_decode(mon_hw_encode(m)) == m,
{
    let p = mon_hw_encode(m);
    let d = mon_hw_decode(p);
    lemma_le_bytes_len();
    assert(p.subrange(0, 4) == u32_le_bytes(m.pin_sel));
    lemma_le_u32(p, 0, m.pin_sel);
    assert(p.subrange(4, 8) == u32_le_bytes(m.pin_bank));
    lemma_le_u32(p, 4, m.pin_bank);
    assert(p.subrange(8, 12) == u32_le_bytes(m.pin_direction));
    lemma_le_u32(p, 8, m.pin_direction);
    assert(p.subrange(12, 16) == u32_le_bytes(m.pin_values));
    lemma_le_u32(p, 12, m.pin_values);
    assert(p.subrange(16, 18) == u16_le_bytes(m.noise_per_ms));
    lemma_le_u16(p, 16, m.noise_per_ms);
    assert(p.subrange(18, 20) == u16_le_bytes(m.agc_count));
    lemma_le_u16(p, 18, m.agc_count);
    assert(p.subrange(24, 28) == u32_le_bytes(m.used_mask));
    lemma_le_u32(p, 24, m.used_mask);
    assert(p.subrange(48, 52) == u32_le_bytes(m.pin_irq));
    lemma_le_u32(p, 48, m.pin_irq);
    assert(p.subrange(52, 56) == u32_le_bytes(m.pull_high));
    lemma_le_u32(p, 52, m.pull_high);
    assert(p.subrange(56, 60) == u32_le_bytes(m.pull_low));
    lemma_le_u32(p, 56, m.pull_low);
    assert(d.pin_maps =~= m.pin_maps);
    assert(d.reserved2 =~= m.reserved2);
}

/// UBX-NAV-DOP (class 0x01, id 0x04): dilution of precision, each value in
/// units of 0.01.
#[derive(Copy, Clone, Debug, PartialEq, Eq)]
pub struct NavDopM8 {
    /// GPS time of week of the navigation epoch (ms).
    pub itow: u32,
    /// Geometric DOP.
    pub g_dop: u16,
    /// Position DOP.
    pub p_dop: u16,
    /// Time DOP.
    pub t_dop: u16,
    /// Vertical DOP.
    pub v_dop: u16,
    /// Horizontal DOP.
    pub h_dop: u16,
    /// Northing DOP.
    pub n_dop: u16,
    /// Easting DOP.
    pub e_dop: u16,
}

/// The UBX-NAV-DOP record that the first 18 bytes of `p` hold.
pub open spec fn nav_dop_decode(p: Seq<u8>) -> NavDopM8 {
    NavDopM8 {
        itow: le_u32(p, 0),
        g_dop: le_u16(p, 4),
        p_dop: le_u16(p, 6),
        t_dop: le_u16(p, 8),
        v_dop: le_u16(p, 10),
        h_dop: le_u16(p, 12),
        n_dop: le_u16(p, 14),
        e_dop: le_u16(p, 16),
    }
}

/// Decodes a UBX-NAV-DOP payload. Succeeds exactly when `buf` holds at least
/// the 18 bytes of the payload, and reads no byte beyond them.
pub fn nav_dop_from_bytes(buf: &[u8]) -> (r: Option<NavDopM8>)
    ensures
        buf@.len() >= UBX_MSG_LEN_NAV_DOP ==> r == Some(nav_dop_decode(buf@)),
        buf@.len() < UBX_MSG_LEN_NAV_DOP ==> r is None,
{
    if buf.len() < UBX_MSG_LEN_NAV_DOP {
        return None;
    }
    Some(
        NavDopM8 {
            itow: u32_at(buf, 0),
            g_dop: u16_at(buf, 4),
            p_dop: u16_at(buf, 6),
            t_dop: u16_at(buf, 8),
            v_dop: u16_at(buf, 10),
            h_dop: u16_at(buf, 12),
            n_dop: u16_at(buf, 14),
            e_dop: u16_at(buf, 16),
        },
    )
}

/// The 18 payload bytes of a UBX-NAV-DOP record.
pub open spec fn nav_dop_encode(m: NavDopM8) -> Seq<u8> {
    u32_le_bytes(m.itow) + u16_le_bytes(m.g_dop) + u16_le_bytes(m.p_dop) + u16_le_bytes(m.t_dop)
        + u16_le_bytes(m.v_dop) + u16_le_bytes(m.h_dop) + u16_le_bytes(m.n_dop) + u16_le_bytes(
        m.e_dop,
    )
}

/// Decoding the payload bytes of a UBX-NAV-DOP record gives the record back,
/// field for field.
pub proof fn lemma_nav_dop_round_trip(m: NavDopM8)
    ensures
        nav_dop_encode(m).len() == UBX_MSG_LEN_NAV_DOP,
        nav_dop_decode(nav_dop_encode(m)) == m,
{
    let p = nav_dop_encode(m);
    lemma_le_bytes_len();
    assert(p.subrange(0, 4) == u32_le_bytes(m.itow));
    lemma_le_u32(p, 0, m.itow);
    assert(p.subrange(4, 6) == u16_le_bytes(m.g_dop));
    lemma_le_u16(p, 4, m.g_dop);
    assert(p.subrange(6, 8) == u16_le_bytes(m.p_dop));
    lemma_le_u16(p, 6, m.p_dop);
    assert(p.subrange(8, 10) == u16_le_bytes(m.t_dop));
    lemma_le_u16(p, 8, m.t_dop);
    assert(p.subrange(10, 12) == u16_le_bytes(m.v_dop));
    lemma_le_u16(p, 10, m.v_dop);
    assert(p.subrange(12, 14) == u16_le_bytes(m.h_dop));
    lemma_le_u16(p, 12, m.h_dop);
    assert(p.subrange(14, 16) == u16_le_bytes(m.n_dop));
    lemma_le_u16(p, 14, m.n_dop);
    assert(p.subrange(16, 18) == u16_le_bytes(m.e_dop));
    lemma_le_u16(p, 16, m.e_dop);
}

} // verus!
