use liftoff_lib::router_protocol::{Opcode, KEEPALIVE_INTERVAL_SECS};

#[test]
fn test_opcode_from_u8() {
    assert_eq!(Opcode::from_u8(0x00), Some(Opcode::Register));
    assert_eq!(Opcode::from_u8(0x01), Some(Opcode::Unregister));
    assert_eq!(Opcode::from_u8(0x02), None);
    assert_eq!(Opcode::from_u8(0xFF), None);
}

#[test]
fn opcode_codes_and_keepalive() {
    assert_eq!(Opcode::Register.code(), 0x00);
    assert_eq!(Opcode::Unregister.code(), 0x01);
    assert_eq!(KEEPALIVE_INTERVAL_SECS, 30);
}
