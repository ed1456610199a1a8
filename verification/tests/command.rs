use winsen_co2_sensor::command::{
    baseline_payload, be16, be16_bytes, be32, range_payload, CALIBRATE_SPAN, CALIBRATE_ZERO,
    GET_ANALOG_BOUNDS, GET_FIRMWARE_VERSION, GET_RANGE, READ_CONCENTRATION, RESET,
    SET_BASELINE_CORRECTION, SET_RANGE,
};

#[test]
fn command_codes() {
    assert_eq!(READ_CONCENTRATION, 0x86);
    assert_eq!(SET_BASELINE_CORRECTION, 0x79);
    assert_eq!(CALIBRATE_ZERO, 0x87);
    assert_eq!(CALIBRATE_SPAN, 0x88);
    assert_eq!(SET_RANGE, 0x99);
    assert_eq!(GET_RANGE, 0x9B);
    assert_eq!(RESET, 0x8D);
    assert_eq!(GET_ANALOG_BOUNDS, 0xA5);
    assert_eq!(GET_FIRMWARE_VERSION, 0xA0);
}

#[test]
fn two_bytes_spell_600() {
    assert_eq!(be16(0x02, 0x58), 600);
}

#[test]
fn two_bytes_at_the_ends() {
    assert_eq!(be16(0, 0), 0);
    assert_eq!(be16(0xFF, 0xFF), u16::MAX);
    assert_eq!(be16(0x01, 0x00), 256);
}

#[test]
fn four_bytes_spell_5000() {
    assert_eq!(be32(0, 0, 0x13, 0x88), 5000);
}

#[test]
fn four_bytes_at_the_ends() {
    assert_eq!(be32(0, 0, 0, 0), 0);
    assert_eq!(be32(0xFF, 0xFF, 0xFF, 0xFF), u32::MAX);
    assert_eq!(be32(0x12, 0x34, 0x56, 0x78), 0x1234_5678);
}

#[test]
fn span_of_2000_is_spelled_07_d0() {
    assert_eq!(be16_bytes(2000), [0x07, 0xD0]);
}

#[test]
fn two_bytes_agree_with_std() {
    for value in [0u16, 1, 255, 256, 400, 2000, 5000, 0x1234, u16::MAX] {
        assert_eq!(be16_bytes(value), value.to_be_bytes());
        let bytes = value.to_be_bytes();
        assert_eq!(be16(bytes[0], bytes[1]), value);
    }
}

#[test]
fn four_bytes_agree_with_std() {
    for value in [0u32, 1, 255, 256, 2000, 5000, 10_000, 0x1234_5678, u32::MAX] {
        let bytes = value.to_be_bytes();
        assert_eq!(be32(bytes[0], bytes[1], bytes[2], bytes[3]), value);
        assert_eq!(&range_payload(value)[1..], &bytes[..]);
    }
}

#[test]
fn baseline_switch() {
    assert_eq!(baseline_payload(true), [0xA0]);
    assert_eq!(baseline_payload(false), [0x00]);
}

#[test]
fn range_of_5000() {
    assert_eq!(range_payload(5000), [0x00, 0x00, 0x00, 0x13, 0x88]);
    assert_eq!(range_payload(2000), [0x00, 0x00, 0x00, 0x07, 0xD0]);
}
