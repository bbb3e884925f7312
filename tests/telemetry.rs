use liftoff_lib::telemetry::{field_from_name, parse_packet, TelemetryError, TelemetryField};

fn floats(words: &[u32]) -> Vec<f32> {
    words.iter().map(|&w| f32::from_bits(w)).collect()
}

#[test]
fn test_parse_packet_timestamp() {
    // 123.4 as f32 le bytes: 0xcd, 0xcc, 0xf6, 0x42
    let data = [0xcd, 0xcc, 0xf6, 0x42];
    let format = vec!["Timestamp".to_string()];
    let pkt = parse_packet(&data, &format).unwrap();
    assert!(pkt.timestamp.is_some());
    assert!((f32::from_bits(pkt.timestamp.unwrap()) - 123.4).abs() < 1e-4);
}

#[test]
fn test_parse_packet_position() {
    // 3 floats: 1.0, 2.0, 3.0
    let mut data = Vec::new();
    data.extend_from_slice(&(1.0f32).to_le_bytes());
    data.extend_from_slice(&(2.0f32).to_le_bytes());
    data.extend_from_slice(&(3.0f32).to_le_bytes());
    let format = vec!["Position".to_string()];
    let pkt = parse_packet(&data, &format).unwrap();
    assert_eq!(pkt.position.as_deref().map(floats), Some(vec![1.0, 2.0, 3.0]));
}

#[test]
fn test_parse_packet_short_buffer() {
    let data = [0x00];
    let format = vec!["Timestamp".to_string()];
    let res = parse_packet(&data, &format);
    assert!(res.is_err());
}

#[test]
fn test_parse_packet_unknown_field() {
    let data = [];
    let format = vec!["Unknown".to_string()];
    let res = parse_packet(&data, &format);
    assert!(res.is_err());
}

fn le(values: &[f32]) -> Vec<u8> {
    values.iter().flat_map(|v| v.to_le_bytes()).collect()
}

#[test]
fn full_record_in_format_order() {
    let mut data = le(&[5.5]);
    data.extend(le(&[1.0, 2.0, 3.0]));
    data.extend(le(&[0.0, 0.0, 0.0, 1.0]));
    data.extend(le(&[4.0, 5.0, 6.0]));
    data.extend(le(&[7.0, 8.0, 9.0]));
    data.extend(le(&[0.1, 0.2, 0.3, 0.4]));
    data.extend(le(&[0.5, 12.0]));
    data.push(2);
    data.extend(le(&[1000.0, 2000.0]));
    let format: Vec<String> = [
        "Timestamp", "Position", "Attitude", "Velocity", "Gyro", "Input", "Battery", "MotorRPM",
    ]
    .iter()
    .map(|s| s.to_string())
    .collect();
    let pkt = parse_packet(&data, &format).unwrap();
    assert_eq!(pkt.timestamp.map(f32::from_bits), Some(5.5));
    assert_eq!(pkt.attitude.as_deref().map(floats), Some(vec![0.0, 0.0, 0.0, 1.0]));
    assert_eq!(pkt.velocity.as_deref().map(floats), Some(vec![4.0, 5.0, 6.0]));
    assert_eq!(pkt.gyro.as_deref().map(floats), Some(vec![7.0, 8.0, 9.0]));
    assert_eq!(pkt.input.as_deref().map(floats), Some(vec![0.1, 0.2, 0.3, 0.4]));
    assert_eq!(pkt.battery.as_deref().map(floats), Some(vec![0.5, 12.0]));
    assert_eq!(pkt.motor_rpm.as_deref().map(floats), Some(vec![1000.0, 2000.0]));
}

#[test]
fn absent_fields_stay_empty_and_short_rpm_list_fails() {
    let pkt = parse_packet(&le(&[1.0, 2.0]), &["Battery".to_string()]).unwrap();
    assert!(pkt.timestamp.is_none());
    assert!(pkt.position.is_none());
    assert!(pkt.motor_rpm.is_none());

    let mut data = vec![3u8];
    data.extend(le(&[1.0, 2.0]));
    assert_eq!(
        parse_packet(&data, &["MotorRPM".to_string()]).err(),
        Some(TelemetryError::BufferTooShort)
    );
    assert_eq!(
        parse_packet(&[], &["MotorRPM".to_string()]).err(),
        Some(TelemetryError::BufferTooShort)
    );
    assert_eq!(
        parse_packet(&[], &["Gyro".to_string(), "Nope".to_string()]).err(),
        Some(TelemetryError::BufferTooShort)
    );
    assert_eq!(
        parse_packet(&le(&[1.0]), &["Timestamp".to_string(), "Nope".to_string()]).err(),
        Some(TelemetryError::UnknownField)
    );
}

#[test]
fn field_names() {
    assert_eq!(field_from_name("MotorRPM"), Some(TelemetryField::MotorRpm));
    assert_eq!(field_from_name("Gyro"), Some(TelemetryField::Gyro));
    assert_eq!(field_from_name("gyro"), None);
    assert_eq!(field_from_name(""), None);
}
