use liftoff_lib::checksum::calc_crc8;
use liftoff_lib::crsf::{
    baro_altitude, build_packet, frame_check_crc, parse_packet, parse_packet_check, ticks_to_us, us_to_ticks,
    Airspeed, Attitude, BaroAlt, Battery, CrsfPacket, FlightMode, Gps, PacketType,
    RcChannelsPacked, Rpm, Vario,
};
use liftoff_lib::crsf::device_address;

const SOURCE_ADDRESS: u8 = device_address::FLIGHT_CONTROLLER;

#[test]
fn test_parse_packet_attitude() {
    // Payload: Type (1), Pitch, Roll, Yaw (2 bytes each, signed, big endian, scaled by 10000)
    let pitch_rad = 1.0;
    let roll_rad = -0.5;
    let yaw_rad = 0.123;

    let pitch_raw = (pitch_rad * 10000.0) as i16;
    let roll_raw = (roll_rad * 10000.0) as i16;
    let yaw_raw = (yaw_rad * 10000.0) as i16;

    let mut payload = Vec::new();
    payload.push(SOURCE_ADDRESS);
    payload.push(8); // Length
    payload.push(PacketType::Attitude.code());
    payload.extend_from_slice(&pitch_raw.to_be_bytes());
    payload.extend_from_slice(&roll_raw.to_be_bytes());
    payload.extend_from_slice(&yaw_raw.to_be_bytes());
    payload.push(0x00); // Dummy CRC

    match parse_packet(&payload) {
        Some(CrsfPacket::Attitude(att)) => {
            assert!(att.pitch == pitch_raw);
            assert!(att.roll == roll_raw);
            assert!(att.yaw == yaw_raw);
        }
        _ => panic!("Expected Attitude packet"),
    }
}

#[test]
fn test_parse_packet_gps() {
    let lat: i32 = 525200000; // 52.52 deg
    let lon: i32 = 134050000; // 13.405 deg
    let speed: u16 = 1000; // 100.0 km/h
    let heading: u16 = 18000; // 180.00 deg
    let alt: u16 = 1500; // 500m (alt - 1000)
    let sats = 8;

    let mut payload = Vec::new();
    payload.push(SOURCE_ADDRESS);
    payload.push(17); // Length
    payload.push(PacketType::Gps.code());
    payload.extend_from_slice(&lat.to_be_bytes());
    payload.extend_from_slice(&lon.to_be_bytes());
    payload.extend_from_slice(&speed.to_be_bytes());
    payload.extend_from_slice(&heading.to_be_bytes());
    payload.extend_from_slice(&alt.to_be_bytes());
    payload.push(sats);
    payload.push(0x00); // Dummy CRC

    match parse_packet(&payload) {
        Some(CrsfPacket::Gps(gps)) => {
            assert_eq!(gps.lat, lat);
            assert_eq!(gps.lon, lon);
            assert_eq!(gps.speed, speed);
            assert_eq!(gps.heading, heading);
            assert_eq!(gps.alt, alt);
            assert_eq!(gps.sats, sats);
        }
        _ => panic!("Expected GPS packet"),
    }
}

#[test]
fn test_parse_packet_battery() {
    let voltage: u16 = 168; // 16.8V
    let current: u16 = 50; // 5.0A
    let capacity: u32 = 1500; // mAh
    let remaining = 80; // %

    let mut payload = Vec::new();
    payload.push(SOURCE_ADDRESS);
    payload.push(10); // Length
    payload.push(PacketType::BatterySensor.code());
    payload.extend_from_slice(&voltage.to_be_bytes());
    payload.extend_from_slice(&current.to_be_bytes());
    // Capacity is 3 bytes big endian
    let cap_bytes = capacity.to_be_bytes();
    payload.push(cap_bytes[1]);
    payload.push(cap_bytes[2]);
    payload.push(cap_bytes[3]);
    payload.push(remaining);
    payload.push(0x00); // Dummy CRC

    match parse_packet(&payload) {
        Some(CrsfPacket::Battery(bat)) => {
            assert_eq!(bat.voltage, voltage);
            assert_eq!(bat.current, current);
            assert_eq!(bat.capacity, capacity);
            assert_eq!(bat.remaining, remaining);
        }
        _ => panic!("Expected Battery packet"),
    }
}

#[test]
fn test_parse_packet_vario() {
    let vspeed: i16 = -15; // -1.5 m/s
    let mut payload = Vec::new();
    payload.push(SOURCE_ADDRESS);
    payload.push(4); // Length
    payload.push(PacketType::Vario.code());
    payload.extend_from_slice(&vspeed.to_be_bytes());
    payload.push(0x00); // Dummy CRC

    match parse_packet(&payload) {
        Some(CrsfPacket::Vario(vario)) => {
            assert_eq!(vario.vertical_speed, vspeed);
        }
        _ => panic!("Expected Vario packet"),
    }
}

#[test]
fn test_parse_packet_flight_mode() {
    let mode_str = "ACRO";
    let mut payload = Vec::new();
    payload.push(SOURCE_ADDRESS);
    payload.push((mode_str.len() + 1 + 2) as u8); // Length
    payload.push(PacketType::FlightMode.code());
    payload.extend_from_slice(mode_str.as_bytes());
    payload.push(0); // Null terminator
    payload.push(0x00); // Dummy CRC

    match parse_packet(&payload) {
        Some(CrsfPacket::FlightMode(fm)) => {
            assert_eq!(fm.mode, "ACRO");
        }
        _ => panic!("Expected FlightMode packet"),
    }
}

#[test]
fn test_parse_packet_short_payload() {
    // Test with payload too short (just type)
    let payload = [PacketType::Attitude.code()];
    assert!(parse_packet(&payload).is_none());

    let payload = [PacketType::Gps.code()];
    assert!(parse_packet(&payload).is_none());

    let payload = [PacketType::BatterySensor.code()];
    assert!(parse_packet(&payload).is_none());

    let payload = [PacketType::Vario.code()];
    assert!(parse_packet(&payload).is_none());

    // Empty payload
    let payload = [];
    assert!(parse_packet(&payload).is_none());
}

#[test]
fn test_parse_packet_unknown() {
    let payload = [
        SOURCE_ADDRESS,
        5,
        PacketType::LinkStatistics.code(),
        1,
        2,
        3,
        0x00,
    ];
    match parse_packet(&payload) {
        Some(CrsfPacket::Unknown(pt)) => assert_eq!(pt, PacketType::LinkStatistics.code()),
        _ => panic!("Expected Unknown packet"),
    }
}

#[test]
fn test_build_packet_gps() {
    let gps = Gps {
        lat: 525_200_000,
        lon: 134_050_000,
        speed: 1000,
        heading: 18000,
        alt: 1500,
        sats: 8,
    };
    let packet = CrsfPacket::Gps(gps.clone());
    let built = build_packet(SOURCE_ADDRESS, &packet).unwrap();

    let parsed = parse_packet_check(&built).unwrap();
    if let CrsfPacket::Gps(p_gps) = parsed {
        assert_eq!(p_gps.lat, gps.lat);
        assert_eq!(p_gps.lon, gps.lon);
        assert_eq!(p_gps.speed, gps.speed);
        assert_eq!(p_gps.heading, gps.heading);
        assert_eq!(p_gps.alt, gps.alt);
        assert_eq!(p_gps.sats, gps.sats);
    } else {
        panic!("Round trip failed for GPS");
    }
}

#[test]
fn test_build_packet_attitude() {
    let att = Attitude {
        pitch: 10000,
        roll: -5000,
        yaw: 1000,
    };
    let packet = CrsfPacket::Attitude(att.clone());
    let built = build_packet(SOURCE_ADDRESS, &packet).unwrap();

    let parsed = parse_packet_check(&built).unwrap();
    if let CrsfPacket::Attitude(p_att) = parsed {
        assert_eq!(p_att.pitch, att.pitch);
        assert_eq!(p_att.roll, att.roll);
        assert_eq!(p_att.yaw, att.yaw);
    } else {
        panic!("Round trip failed for Attitude");
    }
}

#[test]
fn test_build_packet_battery() {
    let bat = Battery {
        voltage: 120,
        current: 10,
        capacity: 1000,
        remaining: 50,
    };
    let packet = CrsfPacket::Battery(bat.clone());
    let built = build_packet(SOURCE_ADDRESS, &packet).unwrap();

    let parsed = parse_packet(&built).unwrap();
    if let CrsfPacket::Battery(p_bat) = parsed {
        assert_eq!(p_bat.voltage, bat.voltage);
        assert_eq!(p_bat.current, bat.current);
        assert_eq!(p_bat.capacity, bat.capacity);
        assert_eq!(p_bat.remaining, bat.remaining);
    } else {
        panic!("Round trip failed for Battery");
    }
}

#[test]
fn test_build_packet_vario() {
    let vario = Vario {
        vertical_speed: -100,
    };
    let packet = CrsfPacket::Vario(vario.clone());
    let built = build_packet(SOURCE_ADDRESS, &packet).unwrap();

    let parsed = parse_packet_check(&built).unwrap();
    if let CrsfPacket::Vario(p_vario) = parsed {
        assert_eq!(p_vario.vertical_speed, vario.vertical_speed);
    } else {
        panic!("Round trip failed for Vario");
    }
}

#[test]
fn test_build_packet_flight_mode() {
    let mode = FlightMode {
        mode: "ACRO".to_string(),
    };
    let packet = CrsfPacket::FlightMode(mode.clone());
    let built = build_packet(SOURCE_ADDRESS, &packet).unwrap();

    let parsed = parse_packet_check(&built).unwrap();
    if let CrsfPacket::FlightMode(p_mode) = parsed {
        assert_eq!(p_mode.mode, mode.mode);
    } else {
        panic!("Round trip failed for FlightMode");
    }
}

#[test]
fn test_build_packet_baro_alt() {
    let baro = BaroAlt {
        alt: 500,
        vertical_speed: 10,
    };
    let packet = CrsfPacket::BaroAlt(baro.clone());
    let built = build_packet(SOURCE_ADDRESS, &packet).unwrap();

    let parsed = parse_packet_check(&built).unwrap();
    if let CrsfPacket::BaroAlt(p_baro) = parsed {
        assert_eq!(p_baro.alt, baro.alt);
        assert_eq!(p_baro.vertical_speed, baro.vertical_speed);
    } else {
        panic!("Round trip failed for BaroAlt");
    }
}

#[test]
fn test_build_packet_airspeed() {
    let air = Airspeed { speed: 500 };
    let packet = CrsfPacket::Airspeed(air.clone());
    let built = build_packet(SOURCE_ADDRESS, &packet).unwrap();

    let parsed = parse_packet_check(&built).unwrap();
    if let CrsfPacket::Airspeed(p_air) = parsed {
        assert_eq!(p_air.speed, air.speed);
    } else {
        panic!("Round trip failed for Airspeed");
    }
}

#[test]
fn test_build_packet_rpm() {
    let rpm = Rpm {
        source_id: 1,
        rpms: vec![1000, 2000],
    };
    let packet = CrsfPacket::Rpm(rpm.clone());
    let built = build_packet(SOURCE_ADDRESS, &packet).unwrap();

    // Framing (4) + Source (1) + 3 bytes * 2
    assert_eq!(built.len(), 4 + 1 + 6);
    assert_eq!(built[2], PacketType::Rpm.code());
    assert_eq!(built[3], 1);
    // 1000 = 0x0003E8 -> 00 03 E8
    assert_eq!(built[4], 0x00);
    assert_eq!(built[5], 0x03);
    assert_eq!(built[6], 0xE8);
    // 2000 = 0x0007D0 -> 00 07 D0
    assert_eq!(built[7], 0x00);
    assert_eq!(built[8], 0x07);
    assert_eq!(built[9], 0xD0);

    // RPM value overflow.
    let rpm = Rpm {
        source_id: 1,
        rpms: vec![0x1000000, 2000],
    };
    let packet = CrsfPacket::Rpm(rpm.clone());
    let built = build_packet(SOURCE_ADDRESS, &packet);
    assert_eq!(built, None);
}

#[test]
fn test_build_packet_rc_channels() {
    let rc_channels = RcChannelsPacked {
        channels: [0x123, 12, 13, 510, 10, 0, 0, 0, 0, 0, 30, 0, 0, 0, 0, 0x7ff],
    };
    let packet = CrsfPacket::RcChannelsPacked(rc_channels.clone());
    let built = build_packet(SOURCE_ADDRESS, &packet).unwrap();
    assert_eq!(built.len(), 4 + 22);
    assert_eq!(built[2], PacketType::RcChannelsPacked.code());

    let parsed = parse_packet_check(&built).unwrap();
    if let CrsfPacket::RcChannelsPacked(p_rc) = parsed {
        assert_eq!(p_rc.channels, rc_channels.channels);
    } else {
        panic!("Round trip failed for RcChannelsPacked");
    }

    // Channel value overflow.
    let rc_channels = RcChannelsPacked {
        channels: [0xfff, 0, 13, 510, 10, 0, 0, 0, 0, 0, 30, 0, 0, 0, 0, 0x7ff],
    };
    let packet = CrsfPacket::RcChannelsPacked(rc_channels.clone());
    let built = build_packet(SOURCE_ADDRESS, &packet);
    assert_eq!(built, None);
}

#[test]
fn crc8_reference_vector() {
    assert_eq!(calc_crc8(b"123456789"), 0xBC);
    assert_eq!(calc_crc8(&[]), 0x00);
}

#[test]
fn zero_channels_frame_layout() {
    let packet = CrsfPacket::RcChannelsPacked(RcChannelsPacked { channels: [0; 16] });
    let built = build_packet(SOURCE_ADDRESS, &packet).unwrap();
    assert_eq!(built.len(), 26);
    assert_eq!(built[0], SOURCE_ADDRESS);
    assert_eq!(built[1], 24);
    assert_eq!(built[2], PacketType::RcChannelsPacked.code());
    assert!(built[3..25].iter().all(|&b| b == 0));
    assert_eq!(built[25], calc_crc8(&built[2..25]));
}

#[test]
fn attitude_frame_bytes() {
    let packet = CrsfPacket::Attitude(Attitude { pitch: 0x0102, roll: -2, yaw: 0 });
    let built = build_packet(0xEA, &packet).unwrap();
    let body = [0x1E, 0x01, 0x02, 0xFF, 0xFE, 0x00, 0x00];
    assert_eq!(&built[..2], &[0xEA, 8]);
    assert_eq!(&built[2..9], &body);
    assert_eq!(built[9], calc_crc8(&body));
    assert!(frame_check_crc(&built));
}

#[test]
fn gps_and_battery_frame_bytes() {
    let gps = Gps { lat: -1, lon: 0x01020304, speed: 0x0506, heading: 0x0708, alt: 0x090A, sats: 11 };
    let built = build_packet(SOURCE_ADDRESS, &CrsfPacket::Gps(gps)).unwrap();
    assert_eq!(
        &built[2..18],
        &[0x02, 0xFF, 0xFF, 0xFF, 0xFF, 1, 2, 3, 4, 5, 6, 7, 8, 9, 10, 11]
    );
    assert_eq!(built[1], 17);

    let bat = Battery { voltage: 0x0102, current: 0x0304, capacity: 0xABCDEF, remaining: 99 };
    let built = build_packet(SOURCE_ADDRESS, &CrsfPacket::Battery(bat)).unwrap();
    assert_eq!(&built[2..11], &[0x08, 1, 2, 3, 4, 0xAB, 0xCD, 0xEF, 99]);
}

#[test]
fn battery_capacity_above_24_bits_fails() {
    let bat = Battery { voltage: 1, current: 1, capacity: 0x100_0000, remaining: 1 };
    assert_eq!(build_packet(SOURCE_ADDRESS, &CrsfPacket::Battery(bat)), None);
    let bat = Battery { voltage: 1, current: 1, capacity: 0xFF_FFFF, remaining: 1 };
    let built = build_packet(SOURCE_ADDRESS, &CrsfPacket::Battery(bat)).unwrap();
    match parse_packet_check(&built) {
        Some(CrsfPacket::Battery(b)) => assert_eq!(b.capacity, 0xFF_FFFF),
        _ => panic!("expected a battery packet"),
    }
}

#[test]
fn unknown_packets_cannot_be_built() {
    assert_eq!(build_packet(SOURCE_ADDRESS, &CrsfPacket::Unknown(0x14)), None);
}

#[test]
fn oversized_frames_are_refused() {
    // 58 characters: 1 type + 58 + 1 NUL + address, length and CRC = 63 bytes.
    let fits = "A".repeat(58);
    let built = build_packet(SOURCE_ADDRESS, &CrsfPacket::FlightMode(FlightMode { mode: fits.clone() }))
        .unwrap();
    assert_eq!(built.len(), 63);
    let too_long = "A".repeat(60);
    assert_eq!(
        build_packet(SOURCE_ADDRESS, &CrsfPacket::FlightMode(FlightMode { mode: too_long })),
        None
    );
    // 19 RPM values: 4 + 1 + 57 = 62 bytes; 20 values: 65 bytes.
    let built = build_packet(SOURCE_ADDRESS, &CrsfPacket::Rpm(Rpm { source_id: 2, rpms: vec![7; 19] }));
    assert_eq!(built.map(|f| f.len()), Some(62));
    assert_eq!(
        build_packet(SOURCE_ADDRESS, &CrsfPacket::Rpm(Rpm { source_id: 2, rpms: vec![7; 20] })),
        None
    );
}

#[test]
fn rpm_round_trip_and_partial_group() {
    let built = build_packet(SOURCE_ADDRESS, &CrsfPacket::Rpm(Rpm { source_id: 9, rpms: vec![0xFF_FFFF, 0, 42] }))
        .unwrap();
    match parse_packet_check(&built) {
        Some(CrsfPacket::Rpm(r)) => {
            assert_eq!(r.source_id, 9);
            assert_eq!(r.rpms, vec![0xFF_FFFF, 0, 42]);
        }
        _ => panic!("expected an RPM packet"),
    }
    // Two trailing bytes do not make a value.
    let frame = [SOURCE_ADDRESS, 8, 0x0C, 3, 0, 1, 2, 0xAA, 0xBB, 0];
    match parse_packet(&frame) {
        Some(CrsfPacket::Rpm(r)) => {
            assert_eq!(r.source_id, 3);
            assert_eq!(r.rpms, vec![0x000102]);
        }
        _ => panic!("expected an RPM packet"),
    }
}

#[test]
fn flight_mode_padding_is_trimmed() {
    let frame = [SOURCE_ADDRESS, 8, 0x21, 0, 0, b'A', b'N', b'G', 0, 0];
    match parse_packet(&frame) {
        Some(CrsfPacket::FlightMode(fm)) => assert_eq!(fm.mode, "ANG"),
        _ => panic!("expected a flight mode packet"),
    }
    let frame = [SOURCE_ADDRESS, 2, 0x21, 0];
    match parse_packet(&frame) {
        Some(CrsfPacket::FlightMode(fm)) => assert_eq!(fm.mode, ""),
        _ => panic!("expected a flight mode packet"),
    }
}

#[test]
fn parse_rejects_bad_length_byte_and_short_data() {
    // Length byte must be the frame length less 2.
    assert!(parse_packet(&[SOURCE_ADDRESS, 5, 0x07, 0, 1, 0]).is_none());
    // Vario needs two data bytes.
    assert!(parse_packet(&[SOURCE_ADDRESS, 3, 0x07, 0, 0]).is_none());
    // Channels need 22 data bytes.
    let mut frame = vec![SOURCE_ADDRESS, 23, 0x16];
    frame.extend_from_slice(&[0u8; 21]);
    frame.push(0);
    assert!(parse_packet(&frame).is_none());
}

#[test]
fn unlisted_type_code_is_unknown() {
    let frame = [SOURCE_ADDRESS, 3, 0x7F, 0x55, 0];
    match parse_packet(&frame) {
        Some(CrsfPacket::Unknown(t)) => assert_eq!(t, 0x7F),
        _ => panic!("expected an unknown packet"),
    }
}

#[test]
fn crc_mismatch_is_rejected() {
    let mut built = build_packet(SOURCE_ADDRESS, &CrsfPacket::Airspeed(Airspeed { speed: 77 })).unwrap();
    assert!(frame_check_crc(&built));
    let last = built.len() - 1;
    built[last] ^= 0x01;
    assert!(!frame_check_crc(&built));
    assert!(parse_packet_check(&built).is_none());
    assert!(parse_packet(&built).is_some());
    assert!(!frame_check_crc(&[SOURCE_ADDRESS, 1, 0]));
}

#[test]
fn packet_type_codes() {
    assert_eq!(PacketType::Gps.code(), 0x02);
    assert_eq!(PacketType::RcChannelsPacked.code(), 0x16);
    assert_eq!(PacketType::RadioId.code(), 0x3A);
    assert_eq!(PacketType::from_code(0x1E), Some(PacketType::Attitude));
    assert_eq!(PacketType::from_code(0x2D), Some(PacketType::ConfigWrite));
    assert_eq!(PacketType::from_code(0x03), None);
}

#[test]
fn pulse_width_conversions() {
    assert_eq!(us_to_ticks(1500), 992);
    assert_eq!(us_to_ticks(1000), 192);
    assert_eq!(us_to_ticks(2000), 1792);
    // (1501 - 1500) * 8 / 5 = 1.6 rounds to 2.
    assert_eq!(us_to_ticks(1501), 994);
    // (1499 - 1500) * 8 / 5 = -1.6 rounds to -2.
    assert_eq!(us_to_ticks(1499), 990);
    assert_eq!(us_to_ticks(0), 0);
    assert_eq!(us_to_ticks(u16::MAX), 2047);
    assert_eq!(ticks_to_us(992), 1500);
    assert_eq!(ticks_to_us(1792), 2000);
    assert_eq!(ticks_to_us(192), 1000);
    // (993 - 992) * 5 / 8 rounds towards zero.
    assert_eq!(ticks_to_us(993), 1500);
    assert_eq!(ticks_to_us(991), 1500);
    assert_eq!(ticks_to_us(0), 880);
}

#[test]
fn baro_altitude_packing() {
    assert_eq!(baro_altitude(-20000), 0);
    assert_eq!(baro_altitude(-10000), 0);
    assert_eq!(baro_altitude(0), 10000);
    assert_eq!(baro_altitude(22767), 0x7fff);
    assert_eq!(baro_altitude(22768), 0x8000 + 2276);
    assert_eq!(baro_altitude(i32::MAX), 0xffff);
}

#[test]
fn flight_mode_invalid_utf8_is_replaced() {
    let frame = [SOURCE_ADDRESS, 5, 0x21, 0xFF, b'A', 0, 0];
    match parse_packet(&frame) {
        Some(CrsfPacket::FlightMode(fm)) => assert_eq!(fm.mode, "\u{FFFD}A"),
        _ => panic!("expected a flight mode packet"),
    }
}
