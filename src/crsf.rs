//! The CRSF packet codec: packet types, the field layout of each supported
//! packet, and the framing (address, length, type, payload, CRC) around it.
pub mod device_address;

use crate::channels::{
    channels_in_range, CHANNEL_MAX, NUM_CHANNELS, pack_channels, packed_channels, unpack_channels, unpacked_channels,
    PACKED_CHANNELS_LEN,
};
pub use crate::checksum::calc_crc8;
use crate::checksum::crc8_of;
use vstd::prelude::*;
use vstd::slice::slice_subrange;
use vstd::utf8::{encode_utf8, is_ascii_chars};

verus! {

/// Largest frame, address, length and CRC bytes included.
pub const MAX_FRAME_SIZE: usize = 64;

/// Largest value a 24-bit field can carry.
pub const MAX_U24: u32 = 0xFF_FFFF;

/// The packet type codes of the protocol.
#[derive(Debug, Clone, Copy, PartialEq, Eq, Structural)]
pub enum PacketType {
    Gps,
    Vario,
    BatterySensor,
    BaroAlt,
    Airspeed,
    Heartbeat,
    Rpm,
    Temp,
    Voltages,
    VideoTransmitter,
    LinkStatistics,
    RcChannelsPacked,
    LinkStatisticsRx,
    LinkStatisticsTx,
    Attitude,
    FlightMode,
    DeviceInfo,
    ConfigRead,
    ConfigWrite,
    RadioId,
}

impl PacketType {
    /// The type byte of this packet type on the wire.
    pub open spec fn spec_code(self) -> u8 {
        match self {
            PacketType::Gps => 0x02,
            PacketType::Vario => 0x07,
            PacketType::BatterySensor => 0x08,
            PacketType::BaroAlt => 0x09,
            PacketType::Airspeed => 0x0A,
            PacketType::Heartbeat => 0x0B,
            PacketType::Rpm => 0x0C,
            PacketType::Temp => 0x0D,
            PacketType::Voltages => 0x0E,
            PacketType::VideoTransmitter => 0x0F,
            PacketType::LinkStatistics => 0x14,
            PacketType::RcChannelsPacked => 0x16,
            PacketType::LinkStatisticsRx => 0x1C,
            PacketType::LinkStatisticsTx => 0x1D,
            PacketType::Attitude => 0x1E,
            PacketType::FlightMode => 0x21,
            PacketType::DeviceInfo => 0x29,
            PacketType::ConfigRead => 0x2C,
            PacketType::ConfigWrite => 0x2D,
            PacketType::RadioId => 0x3A,
        }
    }

    /// The packet type whose type byte is `v`, if any.
    pub open spec fn spec_from_code(v: u8) -> Option<PacketType> {
        if v == 0x02 {
            Some(PacketType::Gps)
        } else if v == 0x07 {
            Some(PacketType::Vario)
        } else if v == 0x08 {
            Some(PacketType::BatterySensor)
        } else if v == 0x09 {
            Some(PacketType::BaroAlt)
        } else if v == 0x0A {
            Some(PacketType::Airspeed)
        } else if v == 0x0B {
            Some(PacketType::Heartbeat)
        } else if v == 0x0C {
            Some(PacketType::Rpm)
        } else if v == 0x0D {
            Some(PacketType::Temp)
        } else if v == 0x0E {
            Some(PacketType::Voltages)
        } else if v == 0x0F {
            Some(PacketType::VideoTransmitter)
        } else if v == 0x14 {
            Some(PacketType::LinkStatistics)
        } else if v == 0x16 {
            Some(PacketType::RcChannelsPacked)
        } else if v == 0x1C {
            Some(PacketType::LinkStatisticsRx)
        } else if v == 0x1D {
            Some(PacketType::LinkStatisticsTx)
        } else if v == 0x1E {
            Some(PacketType::Attitude)
        } else if v == 0x21 {
            Some(PacketType::FlightMode)
        } else if v == 0x29 {
            Some(PacketType::DeviceInfo)
        } else if v == 0x2C {
            Some(PacketType::ConfigRead)
        } else if v == 0x2D {
            Some(PacketType::ConfigWrite)
        } else if v == 0x3A {
            Some(PacketType::RadioId)
        } else {
            None
        }
    }

    /// The type byte of this packet type on the wire.
    #[verifier::when_used_as_spec(spec_code)]
    pub fn code(self) -> (r: u8)
        ensures
            r == self.spec_code(),
    {
        match self {
            PacketType::Gps => 0x02,
            PacketType::Vario => 0x07,
            PacketType::BatterySensor => 0x08,
            PacketType::BaroAlt => 0x09,
            PacketType::Airspeed => 0x0A,
            PacketType::Heartbeat => 0x0B,
            PacketType::Rpm => 0x0C,
            PacketType::Temp => 0x0D,
            PacketType::Voltages => 0x0E,
            PacketType::VideoTransmitter => 0x0F,
            PacketType::LinkStatistics => 0x14,
            PacketType::RcChannelsPacked => 0x16,
            PacketType::LinkStatisticsRx => 0x1C,
            PacketType::LinkStatisticsTx => 0x1D,
            PacketType::Attitude => 0x1E,
            PacketType::FlightMode => 0x21,
            PacketType::DeviceInfo => 0x29,
            PacketType::ConfigRead => 0x2C,
            PacketType::ConfigWrite => 0x2D,
            PacketType::RadioId => 0x3A,
        }
    }

    /// The packet type whose type byte is `v`; `None` for a byte that names none.
    pub fn from_code(v: u8) -> (r: Option<PacketType>)
        ensures
            r == Self::spec_from_code(v),
    {
        match v {
            0x02 => Some(PacketType::Gps),
            0x07 => Some(PacketType::Vario),
            0x08 => Some(PacketType::BatterySensor),
            0x09 => Some(PacketType::BaroAlt),
            0x0A => Some(PacketType::Airspeed),
            0x0B => Some(PacketType::Heartbeat),
            0x0C => Some(PacketType::Rpm),
            0x0D => Some(PacketType::Temp),
            0x0E => Some(PacketType::Voltages),
            0x0F => Some(PacketType::VideoTransmitter),
            0x14 => Some(PacketType::LinkStatistics),
            0x16 => Some(PacketType::RcChannelsPacked),
            0x1C => Some(PacketType::LinkStatisticsRx),
            0x1D => Some(PacketType::LinkStatisticsTx),
            0x1E => Some(PacketType::Attitude),
            0x21 => Some(PacketType::FlightMode),
            0x29 => Some(PacketType::DeviceInfo),
            0x2C => Some(PacketType::ConfigRead),
            0x2D => Some(PacketType::ConfigWrite),
            0x3A => Some(PacketType::RadioId),
            _ => None,
        }
    }
}

/// The channel value for a pulse width of `us` microseconds:
/// `(us - 1500) * 8 / 5` rounded to the nearest integer (it never falls
/// halfway), plus 992, clamped to 0..=2047.
pub open spec fn spec_us_to_ticks(us: u16) -> int {
    let t = (16 * (us as int - 1500) + 5) / 10 + 992;
    if t < 0 {
        0
    } else if t > CHANNEL_MAX as int {
        CHANNEL_MAX as int
    } else {
        t
    }
}

/// The pulse width in microseconds for channel value `ticks`:
/// `(ticks - 992) * 5 / 8 + 1500`, the quotient rounded towards zero.
pub open spec fn spec_ticks_to_us(ticks: u16) -> int {
    if ticks >= 992 {
        (ticks - 992) * 5 / 8 + 1500
    } else {
        1500 - (992 - ticks) * 5 / 8
    }
}

/// Converts a pulse width in microseconds to an 11-bit channel value.
pub fn us_to_ticks(us: u16) -> (r: u16)
    ensures
        r as int == spec_us_to_ticks(us),
{
    // 16 * (us - 1500) + 5 == (16 * us + 5) - 24000, and 24000 / 10 - 992 == 1408.
    let q: u32 = (16 * (us as u32) + 5) / 10;
    if q < 1408 {
        0
    } else if q - 1408 > CHANNEL_MAX as u32 {
        CHANNEL_MAX
    } else {
        (q - 1408) as u16
    }
}

/// Converts an 11-bit channel value to a pulse width in microseconds.
pub fn ticks_to_us(ticks: u16) -> (r: u16)
    ensures
        r as int == spec_ticks_to_us(ticks),
{
    if ticks >= 992 {
        ((ticks as u32 - 992) * 5 / 8 + 1500) as u16
    } else {
        (1500 - (992 - ticks as u32) * 5 / 8) as u16
    }
}

/// Encoding fails on a battery capacity or an RPM value above 0xFFFFFF, and
/// on a channels packet with a channel above 2047.
pub proof fn lemma_encode_rejects_out_of_range(address: u8, p: PacketView)
    requires
        match p {
            PacketView::Battery(b) => b.capacity > MAX_U24,
            PacketView::Rpm(_, rpms) => exists|k: int| 0 <= k < rpms.len() && rpms[k] > MAX_U24,
            PacketView::RcChannelsPacked(c) => exists|i: int|
                0 <= i < c.len() && c[i] > CHANNEL_MAX,
            _ => false,
        },
    ensures
        encode_spec(address, p) is None,
{
}

/// The barometric altitude field for an altitude of `alt_dm` decimetres:
/// decimetres plus 10000, clamped at 0, when that fits in 15 bits; above
/// that, whole metres (at most 0x7FFF) tagged with the high bit.
pub open spec fn spec_baro_altitude(alt_dm: i32) -> int {
    let p = alt_dm + 10000;
    if p < 0 {
        0
    } else if p > 0x7fff {
        let m = alt_dm / 10;
        0x8000 + if m > 0x7fff {
            0x7fff
        } else {
            m
        }
    } else {
        p
    }
}

/// Packs an altitude in decimetres into the barometric altitude field.
pub fn baro_altitude(alt_dm: i32) -> (r: u16)
    ensures
        r as int == spec_baro_altitude(alt_dm),
{
    let p: i64 = alt_dm as i64 + 10000;
    if p < 0 {
        0
    } else if p > 0x7fff {
        let m = alt_dm / 10;
        if m > 0x7fff {
            0xffff
        } else {
            (0x8000 + m) as u16
        }
    } else {
        p as u16
    }
}

/// Every packet type is found again from its type byte.
pub proof fn lemma_packet_type_code_round_trip(t: PacketType)
    ensures
        PacketType::spec_from_code(t.spec_code()) == Some(t),
{
}

/// Attitude: angles in radians times 10000.
#[derive(Debug, Clone, Copy, PartialEq, Eq, Structural)]
pub struct Attitude {
    pub pitch: i16,
    pub roll: i16,
    pub yaw: i16,
}

/// GPS fix.
#[derive(Debug, Clone, Copy, PartialEq, Eq, Structural)]
pub struct Gps {
    /// Degrees times 10^7.
    pub lat: i32,
    /// Degrees times 10^7.
    pub lon: i32,
    /// km/h times 10.
    pub speed: u16,
    /// Degrees times 100.
    pub heading: u16,
    /// Metres plus 1000.
    pub alt: u16,
    pub sats: u8,
}

/// Battery sensor.
#[derive(Debug, Clone, Copy, PartialEq, Eq, Structural)]
pub struct Battery {
    /// Volts times 10.
    pub voltage: u16,
    /// Amperes times 10.
    pub current: u16,
    /// mAh; sent as a 24-bit value.
    pub capacity: u32,
    /// Percent.
    pub remaining: u8,
}

/// Variometer: vertical speed in dm/s.
#[derive(Debug, Clone, Copy, PartialEq, Eq, Structural)]
pub struct Vario {
    pub vertical_speed: i16,
}

/// Flight mode name, sent as a NUL-terminated string.
#[derive(Debug, Clone)]
pub struct FlightMode {
    pub mode: String,
}

/// Barometric altitude.
#[derive(Debug, Clone, Copy, PartialEq, Eq, Structural)]
pub struct BaroAlt {
    /// Metres plus 1000.
    pub alt: u16,
    pub vertical_speed: u8,
}

/// Airspeed in km/h times 10.
#[derive(Debug, Clone, Copy, PartialEq, Eq, Structural)]
pub struct Airspeed {
    pub speed: u16,
}

/// RPM values of one source; each is sent as a 24-bit value.
#[derive(Debug, Clone)]
pub struct Rpm {
    pub source_id: u8,
    pub rpms: Vec<u32>,
}

/// The sixteen 11-bit RC channels.
#[derive(Debug, Clone, Copy)]
pub struct RcChannelsPacked {
    pub channels: [u16; 16],
}

/// A decoded packet: one variant per supported type, and `Unknown` with the
/// type byte of any other structurally valid frame.
#[derive(Debug, Clone)]
pub enum CrsfPacket {
    Attitude(Attitude),
    Gps(Gps),
    Battery(Battery),
    Vario(Vario),
    FlightMode(FlightMode),
    BaroAlt(BaroAlt),
    Airspeed(Airspeed),
    Rpm(Rpm),
    RcChannelsPacked(RcChannelsPacked),
    Unknown(u8),
}

/// A packet as a mathematical value: strings and lists by their contents.
pub enum PacketView {
    Attitude(Attitude),
    Gps(Gps),
    Battery(Battery),
    Vario(Vario),
    FlightMode(Seq<char>),
    BaroAlt(BaroAlt),
    Airspeed(Airspeed),
    Rpm(u8, Seq<u32>),
    RcChannelsPacked(Seq<u16>),
    Unknown(u8),
}

impl View for CrsfPacket {
    type V = PacketView;

    open spec fn view(&self) -> PacketView {
        match self {
            CrsfPacket::Attitude(a) => PacketView::Attitude(*a),
            CrsfPacket::Gps(g) => PacketView::Gps(*g),
            CrsfPacket::Battery(b) => PacketView::Battery(*b),
            CrsfPacket::Vario(v) => PacketView::Vario(*v),
            CrsfPacket::FlightMode(f) => PacketView::FlightMode(f.mode@),
            CrsfPacket::BaroAlt(b) => PacketView::BaroAlt(*b),
            CrsfPacket::Airspeed(a) => PacketView::Airspeed(*a),
            CrsfPacket::Rpm(r) => PacketView::Rpm(r.source_id, r.rpms@),
            CrsfPacket::RcChannelsPacked(c) => PacketView::RcChannelsPacked(c.channels@),
            CrsfPacket::Unknown(t) => PacketView::Unknown(*t),
        }
    }
}

/// The view of an optional packet.
pub open spec fn packet_view(r: Option<CrsfPacket>) -> Option<PacketView> {
    match r {
        Some(p) => Some(p@),
        None => None,
    }
}

/// The contents of an optional byte vector.
pub open spec fn bytes_view(r: Option<Vec<u8>>) -> Option<Seq<u8>> {
    match r {
        Some(v) => Some(v@),
        None => None,
    }
}

/// `x` as two big-endian bytes.
pub open spec fn be16(x: u16) -> Seq<u8> {
    seq![(x / 0x100) as u8, (x % 0x100) as u8]
}

/// The low 24 bits of `x` as three big-endian bytes.
pub open spec fn be24(x: u32) -> Seq<u8> {
    seq![((x / 0x1_0000) % 0x100) as u8, ((x / 0x100) % 0x100) as u8, (x % 0x100) as u8]
}

/// `x` as four big-endian bytes.
pub open spec fn be32(x: u32) -> Seq<u8> {
    seq![
        (x / 0x100_0000) as u8,
        ((x / 0x1_0000) % 0x100) as u8,
        ((x / 0x100) % 0x100) as u8,
        (x % 0x100) as u8,
    ]
}

/// The big-endian 16-bit value at `d[i]`, `d[i + 1]`.
pub open spec fn be16_at(d: Seq<u8>, i: int) -> u16 {
    (d[i] as int * 0x100 + d[i + 1] as int) as u16
}

/// The big-endian 24-bit value at `d[i]` to `d[i + 2]`.
pub open spec fn be24_at(d: Seq<u8>, i: int) -> u32 {
    (d[i] as int * 0x1_0000 + d[i + 1] as int * 0x100 + d[i + 2] as int) as u32
}

/// The big-endian 32-bit value at `d[i]` to `d[i + 3]`.
pub open spec fn be32_at(d: Seq<u8>, i: int) -> u32 {
    (d[i] as int * 0x100_0000 + d[i + 1] as int * 0x1_0000 + d[i + 2] as int * 0x100 + d[i
        + 3] as int) as u32
}

/// Every RPM value fits in 24 bits.
pub open spec fn rpms_fit(rpms: Seq<u32>) -> bool {
    forall|k: int| 0 <= k < rpms.len() ==> rpms[k] <= MAX_U24
}

/// The RPM values one after the other, three big-endian bytes each.
pub open spec fn rpm_bytes(rpms: Seq<u32>) -> Seq<u8>
    decreases rpms.len(),
{
    if rpms.len() == 0 {
        Seq::empty()
    } else {
        rpm_bytes(rpms.drop_last()) + be24(rpms.last())
    }
}

/// The RPM values held after the source id byte `d[0]`: one per whole group
/// of three bytes.
pub open spec fn rpm_values(d: Seq<u8>) -> Seq<u32> {
    Seq::new(((d.len() - 1) / 3) as nat, |k: int| be24_at(d, 1 + 3 * k))
}

/// The type byte and payload of a packet; `None` where the packet has none
/// (`Unknown`) or a field does not fit its wire format.
pub open spec fn payload_of(p: PacketView) -> Option<Seq<u8>> {
    match p {
        PacketView::Attitude(a) => Some(
            seq![PacketType::Attitude.spec_code()] + be16(a.pitch as u16) + be16(a.roll as u16)
                + be16(a.yaw as u16),
        ),
        PacketView::Gps(g) => Some(
            seq![PacketType::Gps.spec_code()] + be32(g.lat as u32) + be32(g.lon as u32) + be16(
                g.speed,
            ) + be16(g.heading) + be16(g.alt) + seq![g.sats],
        ),
        PacketView::Battery(b) => if b.capacity <= MAX_U24 {
            Some(
                seq![PacketType::BatterySensor.spec_code()] + be16(b.voltage) + be16(b.current)
                    + be24(b.capacity) + seq![b.remaining],
            )
        } else {
            None
        },
        PacketView::Vario(v) => Some(
            seq![PacketType::Vario.spec_code()] + be16(v.vertical_speed as u16),
        ),
        PacketView::FlightMode(m) => Some(
            seq![PacketType::FlightMode.spec_code()] + encode_utf8(m) + seq![0u8],
        ),
        PacketView::BaroAlt(b) => Some(
            seq![PacketType::BaroAlt.spec_code()] + be16(b.alt) + seq![b.vertical_speed],
        ),
        PacketView::Airspeed(a) => Some(seq![PacketType::Airspeed.spec_code()] + be16(a.speed)),
        PacketView::Rpm(id, rpms) => if rpms_fit(rpms) {
            Some(seq![PacketType::Rpm.spec_code(), id] + rpm_bytes(rpms))
        } else {
            None
        },
        PacketView::RcChannelsPacked(c) => if channels_in_range(c) {
            Some(seq![PacketType::RcChannelsPacked.spec_code()] + packed_channels(c))
        } else {
            None
        },
        PacketView::Unknown(_) => None,
    }
}

/// The frame around a type byte and payload: address, length, the payload,
/// and the CRC of the payload; `None` if it would exceed 64 bytes.
pub open spec fn frame_of(address: u8, payload: Seq<u8>) -> Option<Seq<u8>> {
    if payload.len() + 3 > MAX_FRAME_SIZE {
        None
    } else {
        Some(seq![address, (payload.len() + 1) as u8] + payload + seq![crc8_of(payload)])
    }
}

/// The frame that encodes `p` with address byte `address`.
pub open spec fn encode_spec(address: u8, p: PacketView) -> Option<Seq<u8>> {
    match payload_of(p) {
        Some(payload) => frame_of(address, payload),
        None => None,
    }
}

/// Appends `x` as two big-endian bytes.
fn push_be16(frame: &mut Vec<u8>, x: u16)
    ensures
        final(frame)@ == old(frame)@ + be16(x),
{
    frame.push((x / 0x100) as u8);
    frame.push((x % 0x100) as u8);
    assert(frame@ =~= old(frame)@ + be16(x));
}

/// Appends the low 24 bits of `x` as three big-endian bytes.
fn push_be24(frame: &mut Vec<u8>, x: u32)
    ensures
        final(frame)@ == old(frame)@ + be24(x),
{
    frame.push(((x / 0x1_0000) % 0x100) as u8);
    frame.push(((x / 0x100) % 0x100) as u8);
    frame.push((x % 0x100) as u8);
    assert(frame@ =~= old(frame)@ + be24(x));
}

/// Appends `x` as four big-endian bytes.
fn push_be32(frame: &mut Vec<u8>, x: u32)
    ensures
        final(frame)@ == old(frame)@ + be32(x),
{
    frame.push((x / 0x100_0000) as u8);
    frame.push(((x / 0x1_0000) % 0x100) as u8);
    frame.push(((x / 0x100) % 0x100) as u8);
    frame.push((x % 0x100) as u8);
    assert(frame@ =~= old(frame)@ + be32(x));
}

/// Appends all of `bytes`.
fn push_bytes(frame: &mut Vec<u8>, bytes: &[u8])
    ensures
        final(frame)@ == old(frame)@ + bytes@,
{
    let mut i: usize = 0;
    while i < bytes.len()
        invariant
            i <= bytes@.len(),
            frame@ == old(frame)@ + bytes@.take(i as int),
        decreases bytes@.len() - i,
    {
        frame.push(bytes[i]);
        i = i + 1;
        assert(frame@ =~= old(frame)@ + bytes@.take(i as int));
    }
    assert(bytes@.take(i as int) =~= bytes@);
}

/// Encodes `packet` as a frame with address byte `address`.
///
/// Fails on `Unknown` packets, on a battery capacity or RPM value above
/// 0xFFFFFF, on a channel above 2047, and when the frame would exceed 64 bytes.
#[verifier::rlimit(40)]
pub fn build_packet(address: u8, packet: &CrsfPacket) -> (r: Option<Vec<u8>>)
    ensures
        bytes_view(r) == encode_spec(address, packet@),
{
    let mut frame: Vec<u8> = Vec::with_capacity(MAX_FRAME_SIZE);
    frame.push(address);
    frame.push(0x00);
    let ghost head = frame@;
    match packet {
        CrsfPacket::Attitude(att) => {
            frame.push(PacketType::Attitude.code());
            push_be16(&mut frame, #[verifier::truncate] (att.pitch as u16));
            push_be16(&mut frame, #[verifier::truncate] (att.roll as u16));
            push_be16(&mut frame, #[verifier::truncate] (att.yaw as u16));
        },
        CrsfPacket::Gps(gps) => {
            frame.push(PacketType::Gps.code());
            push_be32(&mut frame, #[verifier::truncate] (gps.lat as u32));
            push_be32(&mut frame, #[verifier::truncate] (gps.lon as u32));
            push_be16(&mut frame, gps.speed);
            push_be16(&mut frame, gps.heading);
            push_be16(&mut frame, gps.alt);
            frame.push(gps.sats);
        },
        CrsfPacket::Battery(bat) => {
            if bat.capacity > MAX_U24 {
                return None;
            }
            frame.push(PacketType::BatterySensor.code());
            push_be16(&mut frame, bat.voltage);
            push_be16(&mut frame, bat.current);
            push_be24(&mut frame, bat.capacity);
            frame.push(bat.remaining);
        },
        CrsfPacket::Vario(vario) => {
            frame.push(PacketType::Vario.code());
            push_be16(&mut frame, #[verifier::truncate] (vario.vertical_speed as u16));
        },
        CrsfPacket::FlightMode(fm) => {
            frame.push(PacketType::FlightMode.code());
            push_bytes(&mut frame, fm.mode.as_str().as_bytes());
            frame.push(0);
        },
        CrsfPacket::BaroAlt(baro) => {
            frame.push(PacketType::BaroAlt.code());
            push_be16(&mut frame, baro.alt);
            frame.push(baro.vertical_speed);
        },
        CrsfPacket::Airspeed(airspeed) => {
            frame.push(PacketType::Airspeed.code());
            push_be16(&mut frame, airspeed.speed);
        },
        CrsfPacket::Rpm(rpm) => {
            frame.push(PacketType::Rpm.code());
            frame.push(rpm.source_id);
            let ghost start = frame@;
            let mut k: usize = 0;
            while k < rpm.rpms.len()
                invariant
                    packet@ == PacketView::Rpm(rpm.source_id, rpm.rpms@),
                    k <= rpm.rpms@.len(),
                    frame@ == start + rpm_bytes(rpm.rpms@.take(k as int)),
                    forall|j: int| 0 <= j < k ==> rpm.rpms@[j] <= MAX_U24,
                decreases rpm.rpms@.len() - k,
            {
                let val = rpm.rpms[k];
                if val > MAX_U24 {
                    assert(!rpms_fit(rpm.rpms@));
                    return None;
                }
                push_be24(&mut frame, val);
                k = k + 1;
                assert(rpm.rpms@.take(k as int).drop_last() =~= rpm.rpms@.take(k - 1));
            }
            assert(rpm.rpms@.take(k as int) =~= rpm.rpms@);
        },
        CrsfPacket::RcChannelsPacked(channels) => {
            frame.push(PacketType::RcChannelsPacked.code());
            match pack_channels(&channels.channels) {
                Some(bytes) => push_bytes(&mut frame, &bytes),
                None => return None,
            }
        },
        CrsfPacket::Unknown(_) => {
            return None;
        },
    }
    let ghost payload = frame@.subrange(2, frame@.len() as int);
    assert(frame@ =~= head + payload);
    assert(payload_of(packet@) == Some(payload));
    if frame.len() >= MAX_FRAME_SIZE {
        return None;
    }
    let len = frame.len();
    frame[1] = (len - 1) as u8;
    let body = slice_subrange(frame.as_slice(), 2, len);
    assert(body@ =~= payload);
    let crc = calc_crc8(body);
    frame.push(crc);
    assert(frame@ =~= seq![address, (payload.len() + 1) as u8] + payload + seq![crc8_of(payload)]);
    Some(frame)
}

/// A frame's generic shape: at least four bytes, and a length byte that
/// counts every byte after itself.
pub open spec fn frame_well_shaped(frame: Seq<u8>) -> bool {
    frame.len() >= 4 && frame[1] as int == frame.len() - 2
}

/// Every byte is ASCII.
pub open spec fn bytes_are_ascii(b: Seq<u8>) -> bool {
    forall|i: int| 0 <= i < b.len() ==> b[i] < 0x80
}

/// ASCII bytes read as characters.
pub open spec fn ascii_chars(b: Seq<u8>) -> Seq<char> {
    b.map_values(|x: u8| x as char)
}

/// The characters that `String::from_utf8_lossy` reads from `b`: valid UTF-8
/// decoded, each invalid sequence replaced by U+FFFD.
pub uninterp spec fn utf8_lossy(b: Seq<u8>) -> Seq<char>;

/// The text of a flight mode name given by its bytes.
pub open spec fn mode_from_bytes(b: Seq<u8>) -> Seq<char> {
    if bytes_are_ascii(b) {
        ascii_chars(b)
    } else {
        utf8_lossy(b)
    }
}

/// `d` without its leading NUL bytes.
pub open spec fn trim_leading_nul(d: Seq<u8>) -> Seq<u8>
    decreases d.len(),
{
    if d.len() > 0 && d[0] == 0 {
        trim_leading_nul(d.drop_first())
    } else {
        d
    }
}

/// `d` without its trailing NUL bytes.
pub open spec fn trim_trailing_nul(d: Seq<u8>) -> Seq<u8>
    decreases d.len(),
{
    if d.len() > 0 && d.last() == 0 {
        trim_trailing_nul(d.drop_last())
    } else {
        d
    }
}

/// `d` without its leading and trailing NUL bytes.
pub open spec fn trim_nul(d: Seq<u8>) -> Seq<u8> {
    trim_trailing_nul(trim_leading_nul(d))
}

/// The packet that type byte `t` and data `d` (the bytes between the type
/// byte and the CRC) decode to.
pub open spec fn decode_body(t: u8, d: Seq<u8>) -> Option<PacketView> {
    match PacketType::spec_from_code(t) {
        Some(PacketType::Attitude) => if d.len() >= 6 {
            Some(
                PacketView::Attitude(
                    Attitude {
                        pitch: be16_at(d, 0) as i16,
                        roll: be16_at(d, 2) as i16,
                        yaw: be16_at(d, 4) as i16,
                    },
                ),
            )
        } else {
            None
        },
        Some(PacketType::Gps) => if d.len() >= 15 {
            Some(
                PacketView::Gps(
                    Gps {
                        lat: be32_at(d, 0) as i32,
                        lon: be32_at(d, 4) as i32,
                        speed: be16_at(d, 8),
                        heading: be16_at(d, 10),
                        alt: be16_at(d, 12),
                        sats: d[14],
                    },
                ),
            )
        } else {
            None
        },
        Some(PacketType::BatterySensor) => if d.len() >= 8 {
            Some(
                PacketView::Battery(
                    Battery {
                        voltage: be16_at(d, 0),
                        current: be16_at(d, 2),
                        capacity: be24_at(d, 4),
                        remaining: d[7],
                    },
                ),
            )
        } else {
            None
        },
        Some(PacketType::Vario) => if d.len() >= 2 {
            Some(PacketView::Vario(Vario { vertical_speed: be16_at(d, 0) as i16 }))
        } else {
            None
        },
        Some(PacketType::FlightMode) => Some(PacketView::FlightMode(mode_from_bytes(trim_nul(d)))),
        Some(PacketType::BaroAlt) => if d.len() >= 3 {
            Some(PacketView::BaroAlt(BaroAlt { alt: be16_at(d, 0), vertical_speed: d[2] }))
        } else {
            None
        },
        Some(PacketType::Airspeed) => if d.len() >= 2 {
            Some(PacketView::Airspeed(Airspeed { speed: be16_at(d, 0) }))
        } else {
            None
        },
        Some(PacketType::Rpm) => if d.len() >= 1 {
            Some(PacketView::Rpm(d[0], rpm_values(d)))
        } else {
            None
        },
        Some(PacketType::RcChannelsPacked) => if d.len() >= PACKED_CHANNELS_LEN {
            Some(PacketView::RcChannelsPacked(unpacked_channels(d)))
        } else {
            None
        },
        _ => Some(PacketView::Unknown(t)),
    }
}

/// The packet a frame decodes to, CRC not checked.
pub open spec fn decode_spec(frame: Seq<u8>) -> Option<PacketView> {
    if frame_well_shaped(frame) {
        decode_body(frame[2], frame.subrange(3, frame.len() - 1))
    } else {
        None
    }
}

/// The frame is well shaped and its last byte is the CRC of the type byte
/// and payload.
pub open spec fn frame_crc_ok(frame: Seq<u8>) -> bool {
    frame_well_shaped(frame) && crc8_of(frame.subrange(2, frame.len() - 1)) == frame[frame.len()
        - 1]
}

/// The packet a frame decodes to once its CRC has been checked.
pub open spec fn decode_checked_spec(frame: Seq<u8>) -> Option<PacketView> {
    if frame_crc_ok(frame) {
        decode_spec(frame)
    } else {
        None
    }
}

/// Relies on `String::from_utf8_lossy`: the text depends on the bytes alone,
/// and bytes that are valid UTF-8, ASCII among them, are kept as they are.
#[verifier::external_body]
fn string_from_utf8_lossy(b: &[u8]) -> (r: String)
    ensures
        r@ == utf8_lossy(b@),
        bytes_are_ascii(b@) ==> r@ == ascii_chars(b@),
{
    String::from_utf8_lossy(b).into_owned()
}

/// The flight mode name held in `d`: NUL bytes at either end dropped.
fn mode_text(d: &[u8]) -> (r: String)
    ensures
        r@ == mode_from_bytes(trim_nul(d@)),
{
    let t = strip_nul(d);
    string_from_utf8_lossy(t)
}

/// `d` without its leading and trailing NUL bytes.
fn strip_nul(d: &[u8]) -> (r: &[u8])
    ensures
        r@ == trim_nul(d@),
{
    let len = d.len();
    let mut start: usize = 0;
    assert(d@.subrange(0, len as int) =~= d@);
    while start < len && d[start] == 0
        invariant
            len == d@.len(),
            start <= len,
            trim_leading_nul(d@) == trim_leading_nul(d@.subrange(start as int, len as int)),
        decreases len - start,
    {
        assert(d@.subrange(start as int, len as int).drop_first() =~= d@.subrange(
            start as int + 1,
            len as int,
        ));
        start = start + 1;
    }
    let mut end: usize = len;
    while end > start && d[end - 1] == 0
        invariant
            len == d@.len(),
            start <= end <= len,
            trim_trailing_nul(trim_leading_nul(d@)) == trim_trailing_nul(
                d@.subrange(start as int, end as int),
            ),
        decreases end - start,
    {
        assert(d@.subrange(start as int, end as int).drop_last() =~= d@.subrange(
            start as int,
            end as int - 1,
        ));
        end = end - 1;
    }
    slice_subrange(d, start, end)
}

/// The big-endian 16-bit value at `d[i]`.
fn read_be16(d: &[u8], i: usize) -> (r: u16)
    requires
        i + 2 <= d@.len(),
    ensures
        r == be16_at(d@, i as int),
{
    (d[i] as u16) * 0x100 + (d[i + 1] as u16)
}

/// The big-endian 24-bit value at `d[i]`.
fn read_be24(d: &[u8], i: usize) -> (r: u32)
    requires
        i + 3 <= d@.len(),
    ensures
        r == be24_at(d@, i as int),
{
    (d[i] as u32) * 0x1_0000 + (d[i + 1] as u32) * 0x100 + (d[i + 2] as u32)
}

/// The big-endian 32-bit value at `d[i]`.
fn read_be32(d: &[u8], i: usize) -> (r: u32)
    requires
        i + 4 <= d@.len(),
    ensures
        r == be32_at(d@, i as int),
{
    (d[i] as u32) * 0x100_0000 + (d[i + 1] as u32) * 0x1_0000 + (d[i + 2] as u32) * 0x100 + (d[i
        + 3] as u32)
}

/// Decodes a frame without checking its CRC.
///
/// Fails on a frame of fewer than 4 bytes or whose length byte is not its
/// length less 2, and on data too short for the frame's type; a type byte
/// that names no supported packet gives `Unknown` with that byte.
pub fn parse_packet(frame: &[u8]) -> (r: Option<CrsfPacket>)
    ensures
        packet_view(r) == decode_spec(frame@),
{
    if frame.len() < 4 || (frame[1] as usize) != frame.len() - 2 {
        return None;
    }
    let type_byte = frame[2];
    let data = slice_subrange(frame, 3, frame.len() - 1);
    match PacketType::from_code(type_byte) {
        Some(PacketType::Attitude) => {
            if data.len() < 6 {
                return None;
            }
            let pitch = #[verifier::truncate] (read_be16(data, 0) as i16);
            let roll = #[verifier::truncate] (read_be16(data, 2) as i16);
            let yaw = #[verifier::truncate] (read_be16(data, 4) as i16);
            Some(CrsfPacket::Attitude(Attitude { pitch, roll, yaw }))
        },
        Some(PacketType::Gps) => {
            if data.len() < 15 {
                return None;
            }
            let lat = #[verifier::truncate] (read_be32(data, 0) as i32);
            let lon = #[verifier::truncate] (read_be32(data, 4) as i32);
            let speed = read_be16(data, 8);
            let heading = read_be16(data, 10);
            let alt = read_be16(data, 12);
            let sats = data[14];
            Some(CrsfPacket::Gps(Gps { lat, lon, speed, heading, alt, sats }))
        },
        Some(PacketType::BatterySensor) => {
            if data.len() < 8 {
                return None;
            }
            let voltage = read_be16(data, 0);
            let current = read_be16(data, 2);
            let capacity = read_be24(data, 4);
            let remaining = data[7];
            Some(CrsfPacket::Battery(Battery { voltage, current, capacity, remaining }))
        },
        Some(PacketType::Vario) => {
            if data.len() < 2 {
                return None;
            }
            let vertical_speed = #[verifier::truncate] (read_be16(data, 0) as i16);
            Some(CrsfPacket::Vario(Vario { vertical_speed }))
        },
        Some(PacketType::FlightMode) => {
            let mode = mode_text(data);
            Some(CrsfPacket::FlightMode(FlightMode { mode }))
        },
        Some(PacketType::BaroAlt) => {
            if data.len() < 3 {
                return None;
            }
            let alt = read_be16(data, 0);
            let vertical_speed = data[2];
            Some(CrsfPacket::BaroAlt(BaroAlt { alt, vertical_speed }))
        },
        Some(PacketType::Airspeed) => {
            if data.len() < 2 {
                return None;
            }
            let speed = read_be16(data, 0);
            Some(CrsfPacket::Airspeed(Airspeed { speed }))
        },
        Some(PacketType::Rpm) => {
            if data.len() < 1 {
                return None;
            }
            let source_id = data[0];
            let mut rpms: Vec<u32> = Vec::new();
            let mut i: usize = 1;
            while data.len() - i >= 3
                invariant
                    1 <= i <= data@.len(),
                    i == 1 + 3 * rpms@.len(),
                    rpms@ == Seq::new(rpms@.len(), |k: int| be24_at(data@, 1 + 3 * k)),
                decreases data@.len() - i,
            {
                let val = read_be24(data, i);
                rpms.push(val);
                i = i + 3;
                assert(rpms@ =~= Seq::new(rpms@.len(), |k: int| be24_at(data@, 1 + 3 * k)));
            }
            proof {
                vstd::arithmetic::div_mod::lemma_fundamental_div_mod_converse(
                    data@.len() - 1,
                    3,
                    rpms@.len() as int,
                    data@.len() - i,
                );
            }
            assert(rpms@ =~= rpm_values(data@));
            Some(CrsfPacket::Rpm(Rpm { source_id, rpms }))
        },
        Some(PacketType::RcChannelsPacked) => {
            match unpack_channels(data) {
                Some(channels) => Some(CrsfPacket::RcChannelsPacked(RcChannelsPacked { channels })),
                None => None,
            }
        },
        _ => Some(CrsfPacket::Unknown(type_byte)),
    }
}

/// Whether a frame is well shaped and its CRC byte matches the CRC of its
/// type byte and payload.
pub fn frame_check_crc(frame: &[u8]) -> (r: bool)
    ensures
        r == frame_crc_ok(frame@),
{
    if frame.len() < 4 || (frame[1] as usize) != frame.len() - 2 {
        return false;
    }
    calc_crc8(slice_subrange(frame, 2, frame.len() - 1)) == frame[frame.len() - 1]
}

/// Decodes a frame once its CRC has been checked; `None` on a CRC mismatch.
pub fn parse_packet_check(frame: &[u8]) -> (r: Option<CrsfPacket>)
    ensures
        packet_view(r) == decode_checked_spec(frame@),
{
    if frame_check_crc(frame) {
        parse_packet(frame)
    } else {
        None
    }
}

/// The flight mode names that survive the wire unchanged: ASCII, with no NUL
/// at either end.
pub open spec fn mode_name_ok(m: Seq<char>) -> bool {
    &&& is_ascii_chars(m)
    &&& m.len() > 0 ==> m[0] != '\0' && m.last() != '\0'
}

/// A supported packet whose fields are in range: it has a payload (every
/// 24-bit value and channel fits), its frame fits in 64 bytes, it holds
/// sixteen channels if it is a channels packet, and a flight mode name is
/// ASCII with no NUL at either end.
pub open spec fn encodable(p: PacketView) -> bool {
    &&& payload_of(p) is Some
    &&& payload_of(p).unwrap().len() + 3 <= MAX_FRAME_SIZE
    &&& (p matches PacketView::FlightMode(m) ==> mode_name_ok(m))
    &&& (p matches PacketView::RcChannelsPacked(c) ==> c.len() == NUM_CHANNELS)
}

proof fn lemma_be16_at(d: Seq<u8>, i: int, x: u16)
    requires
        0 <= i,
        i + 2 <= d.len(),
        d.subrange(i, i + 2) == be16(x),
    ensures
        be16_at(d, i) == x,
{
    assert(d[i] == d.subrange(i, i + 2)[0]);
    assert(d[i + 1] == d.subrange(i, i + 2)[1]);
}

proof fn lemma_be24_at(d: Seq<u8>, i: int, x: u32)
    requires
        0 <= i,
        i + 3 <= d.len(),
        d.subrange(i, i + 3) == be24(x),
        x <= MAX_U24,
    ensures
        be24_at(d, i) == x,
{
    assert(d[i] == d.subrange(i, i + 3)[0]);
    assert(d[i + 1] == d.subrange(i, i + 3)[1]);
    assert(d[i + 2] == d.subrange(i, i + 3)[2]);
    assert(x <= 0xFF_FFFF ==> x == ((x / 0x1_0000) % 0x100) * 0x1_0000 + ((x / 0x100) % 0x100)
        * 0x100 + x % 0x100) by (bit_vector);
}

proof fn lemma_be32_at(d: Seq<u8>, i: int, x: u32)
    requires
        0 <= i,
        i + 4 <= d.len(),
        d.subrange(i, i + 4) == be32(x),
    ensures
        be32_at(d, i) == x,
{
    assert(d[i] == d.subrange(i, i + 4)[0]);
    assert(d[i + 1] == d.subrange(i, i + 4)[1]);
    assert(d[i + 2] == d.subrange(i, i + 4)[2]);
    assert(d[i + 3] == d.subrange(i, i + 4)[3]);
    assert(x == (x / 0x100_0000) * 0x100_0000 + ((x / 0x1_0000) % 0x100) * 0x1_0000 + ((x
        / 0x100) % 0x100) * 0x100 + x % 0x100) by (bit_vector);
}

proof fn lemma_rpm_bytes(rpms: Seq<u32>)
    ensures
        rpm_bytes(rpms).len() == 3 * rpms.len(),
        forall|k: int|
            0 <= k < rpms.len() ==> #[trigger] rpm_bytes(rpms).subrange(3 * k, 3 * k + 3) == be24(
                rpms[k],
            ),
    decreases rpms.len(),
{
    if rpms.len() > 0 {
        let init = rpms.drop_last();
        lemma_rpm_bytes(init);
        assert forall|k: int| 0 <= k < rpms.len() implies #[trigger] rpm_bytes(rpms).subrange(
            3 * k,
            3 * k + 3,
        ) == be24(rpms[k]) by {
            if k < init.len() {
                assert(rpm_bytes(rpms).subrange(3 * k, 3 * k + 3) =~= rpm_bytes(init).subrange(
                    3 * k,
                    3 * k + 3,
                ));
            } else {
                assert(rpm_bytes(rpms).subrange(3 * k, 3 * k + 3) =~= be24(rpms.last()));
            }
        }
    }
}

proof fn lemma_trim_mode_bytes(m: Seq<char>)
    requires
        mode_name_ok(m),
    ensures
        trim_nul(encode_utf8(m) + seq![0u8]) == encode_utf8(m),
        mode_from_bytes(encode_utf8(m)) == m,
{
    let b = encode_utf8(m);
    vstd::utf8::is_ascii_chars_encode_utf8(m);
    vstd::utf8::is_ascii_chars_nat_bound(m);
    let t = b + seq![0u8];
    if m.len() > 0 {
        assert(t.drop_first() =~= b.drop_first() + seq![0u8]);
        assert(t[0] == b[0]);
        assert(b[0] != 0);
        assert(trim_leading_nul(t) == t);
        assert(t.drop_last() =~= b);
        assert(t.last() == 0);
        assert(trim_trailing_nul(t) == trim_trailing_nul(b));
        assert(b.last() != 0);
        assert(trim_trailing_nul(b) == b);
    } else {
        assert(b =~= Seq::<u8>::empty());
        assert(t.drop_first() =~= Seq::<u8>::empty());
        assert(trim_leading_nul(t) == trim_leading_nul(Seq::<u8>::empty()));
        assert(trim_leading_nul(t) =~= Seq::<u8>::empty());
    }
    assert(bytes_are_ascii(b));
    assert(ascii_chars(b) =~= m);
}

proof fn lemma_decode_fixed_fields(p: PacketView)
    requires
        encodable(p),
        !(p is FlightMode),
        !(p is Rpm),
        !(p is RcChannelsPacked),
    ensures
        decode_body(payload_of(p).unwrap()[0], payload_of(p).unwrap().drop_first()) == Some(p),
{
    let pl = payload_of(p).unwrap();
    let d = pl.drop_first();
    match p {
        PacketView::Attitude(a) => {
            assert(d.subrange(0, 2) =~= be16(a.pitch as u16));
            assert(d.subrange(2, 4) =~= be16(a.roll as u16));
            assert(d.subrange(4, 6) =~= be16(a.yaw as u16));
            lemma_be16_at(d, 0, a.pitch as u16);
            lemma_be16_at(d, 2, a.roll as u16);
            lemma_be16_at(d, 4, a.yaw as u16);
            let (x, y, z) = (a.pitch, a.roll, a.yaw);
            assert(((x as u16) as i16) == x && ((y as u16) as i16) == y && ((z as u16) as i16) == z)
                by (bit_vector);
        },
        PacketView::Gps(g) => {
            assert(d.subrange(0, 4) =~= be32(g.lat as u32));
            assert(d.subrange(4, 8) =~= be32(g.lon as u32));
            assert(d.subrange(8, 10) =~= be16(g.speed));
            assert(d.subrange(10, 12) =~= be16(g.heading));
            assert(d.subrange(12, 14) =~= be16(g.alt));
            lemma_be32_at(d, 0, g.lat as u32);
            lemma_be32_at(d, 4, g.lon as u32);
            lemma_be16_at(d, 8, g.speed);
            lemma_be16_at(d, 10, g.heading);
            lemma_be16_at(d, 12, g.alt);
            let (x, y) = (g.lat, g.lon);
            assert(((x as u32) as i32) == x && ((y as u32) as i32) == y) by (bit_vector);
        },
        PacketView::Battery(b) => {
            assert(d.subrange(0, 2) =~= be16(b.voltage));
            assert(d.subrange(2, 4) =~= be16(b.current));
            assert(d.subrange(4, 7) =~= be24(b.capacity));
            lemma_be16_at(d, 0, b.voltage);
            lemma_be16_at(d, 2, b.current);
            lemma_be24_at(d, 4, b.capacity);
        },
        PacketView::Vario(v) => {
            assert(d.subrange(0, 2) =~= be16(v.vertical_speed as u16));
            lemma_be16_at(d, 0, v.vertical_speed as u16);
            let x = v.vertical_speed;
            assert(((x as u16) as i16) == x) by (bit_vector);
        },
        PacketView::BaroAlt(b) => {
            assert(d.subrange(0, 2) =~= be16(b.alt));
            lemma_be16_at(d, 0, b.alt);
        },
        PacketView::Airspeed(a) => {
            assert(d.subrange(0, 2) =~= be16(a.speed));
            lemma_be16_at(d, 0, a.speed);
        },
        _ => {},
    }
}

proof fn lemma_decode_rpm(id: u8, rpms: Seq<u32>)
    requires
        encodable(PacketView::Rpm(id, rpms)),
    ensures
        decode_body(
            PacketType::Rpm.spec_code(),
            payload_of(PacketView::Rpm(id, rpms)).unwrap().drop_first(),
        ) == Some(PacketView::Rpm(id, rpms)),
{
    let d = payload_of(PacketView::Rpm(id, rpms)).unwrap().drop_first();
    lemma_rpm_bytes(rpms);
    assert(d =~= seq![id] + rpm_bytes(rpms));
    assert forall|k: int| 0 <= k < rpms.len() implies #[trigger] be24_at(d, 1 + 3 * k)
        == rpms[k] by {
        assert(d.subrange(1 + 3 * k, 1 + 3 * k + 3) =~= rpm_bytes(rpms).subrange(3 * k, 3 * k + 3));
        lemma_be24_at(d, 1 + 3 * k, rpms[k]);
    }
    assert(rpm_values(d) =~= rpms);
}

/// Encoding a supported packet with in-range fields and decoding the frame,
/// CRC checked, gives the packet back.
pub proof fn lemma_encode_decode_round_trip(address: u8, p: PacketView)
    requires
        encodable(p),
    ensures
        encode_spec(address, p) is Some,
        decode_checked_spec(encode_spec(address, p).unwrap()) == Some(p),
{
    let pl = payload_of(p).unwrap();
    let f = encode_spec(address, p).unwrap();
    let n = f.len();
    assert(f.subrange(2, n - 1) =~= pl);
    assert(f.subrange(3, n - 1) =~= pl.drop_first());
    let d = pl.drop_first();
    assert(f[2] == pl[0]);
    match p {
        PacketView::FlightMode(m) => {
            assert(d =~= encode_utf8(m) + seq![0u8]);
            lemma_trim_mode_bytes(m);
        },
        PacketView::Rpm(id, rpms) => {
            lemma_decode_rpm(id, rpms);
        },
        PacketView::RcChannelsPacked(c) => {
            crate::channels::lemma_pack_unpack_round_trip(c);
            assert(d =~= packed_channels(c));
        },
        _ => {
            lemma_decode_fixed_fields(p);
        },
    }
}

} // verus!
