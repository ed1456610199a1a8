use winsen_co2_sensor::codec::{checksum, decode, encode};
use winsen_co2_sensor::Error;

fn sum_of(bytes: &[u8]) -> u8 {
    let mut sum: u8 = 0;
    for b in bytes {
        sum = sum.wrapping_add(*b);
    }
    sum
}

#[test]
fn checksum_of_read_request() {
    assert_eq!(checksum(&[0xFF, 0x01, 0x86, 0, 0, 0, 0, 0]), 0x79);
}

#[test]
fn checksum_of_nothing_is_all_ones() {
    assert_eq!(checksum(&[]), 0xFF);
}

#[test]
fn checksum_wraps() {
    assert_eq!(checksum(&[0xFF, 0xFF, 0x03]), !0x01u8);
}

#[test]
fn checksum_of_sound_frame_is_zero() {
    assert_eq!(checksum(&[0xFF, 0x86, 0x02, 0x58, 0, 0, 0, 0, 0x20]), 0);
}

#[test]
fn encode_read_concentration() {
    assert_eq!(encode(0x86, &[]), [0xFF, 0x01, 0x86, 0, 0, 0, 0, 0, 0x79]);
}

#[test]
fn encode_span_of_2000() {
    assert_eq!(encode(0x88, &[0x07, 0xD0]), [0xFF, 0x01, 0x88, 0x07, 0xD0, 0, 0, 0, 0xA0]);
}

#[test]
fn encode_full_payload() {
    let frame = encode(0x99, &[0x00, 0x00, 0x00, 0x13, 0x88]);
    assert_eq!(&frame[..8], &[0xFF, 0x01, 0x99, 0x00, 0x00, 0x00, 0x13, 0x88]);
    assert_eq!(frame[8], 0xCB);
}

#[test]
fn encoded_frames_add_up_to_all_ones() {
    for command in 0..=255u8 {
        for len in 0..=5usize {
            let payload: Vec<u8> = (0..len)
                .map(|i| command.wrapping_mul(31).wrapping_add(i as u8 * 77))
                .collect();
            let frame = encode(command, &payload);
            assert_eq!(sum_of(&frame), 0xFF);
            assert_eq!(frame[0], 0xFF);
            assert_eq!(frame[1], 0x01);
            assert_eq!(frame[2], command);
            assert_eq!(&frame[3..3 + len], &payload[..]);
            assert!(frame[3 + len..8].iter().all(|b| *b == 0));
        }
    }
}

#[test]
fn decode_concentration_reply() {
    let frame = [0xFF, 0x86, 0x02, 0x58, 0, 0, 0, 0, 0x20];
    assert_eq!(decode::<()>(&frame, 0x86, 2), Ok(vec![0x02, 0x58]));
}

#[test]
fn decode_without_data() {
    let frame = [0xFF, 0x86, 0x02, 0x58, 0, 0, 0, 0, 0x20];
    assert_eq!(decode::<()>(&frame, 0x86, 0), Ok(vec![]));
}

#[test]
fn decode_six_bytes() {
    let frame = [0xFF, 0x86, 1, 2, 3, 4, 5, 6, 0x65];
    assert_eq!(sum_of(&frame), 0xFF);
    assert_eq!(decode::<()>(&frame, 0x86, 6), Ok(vec![1, 2, 3, 4, 5, 6]));
}

#[test]
fn decode_rejects_bad_checksum() {
    let frame = [0xFF, 0x86, 0x02, 0x58, 0, 0, 0, 0, 0x21];
    assert_eq!(decode::<()>(&frame, 0x86, 2), Err(Error::WrongChecksum));
}

#[test]
fn decode_rejects_other_command() {
    let frame = [0xFF, 0x86, 0x02, 0x58, 0, 0, 0, 0, 0x20];
    assert_eq!(decode::<()>(&frame, 0x9B, 2), Err(Error::WrongPacketType));
}

#[test]
fn decode_checks_the_sum_before_the_command() {
    let frame = [0xFF, 0x86, 0x02, 0x58, 0, 0, 0, 0, 0x00];
    assert_eq!(decode::<()>(&frame, 0x9B, 2), Err(Error::WrongChecksum));
}

#[test]
fn decode_does_not_ask_for_the_marker() {
    let frame = [0x00, 0x86, 0x02, 0x58, 0, 0, 0, 0, 0x1F];
    assert_eq!(sum_of(&frame), 0xFF);
    assert_eq!(decode::<()>(&frame, 0x86, 2), Ok(vec![0x02, 0x58]));
}

#[test]
fn any_changed_byte_breaks_the_checksum() {
    let sound = [0xFF, 0x86, 0x02, 0x58, 0, 0, 0, 0, 0x20];
    for i in 0..9 {
        for value in 0..=255u8 {
            let mut frame = sound;
            frame[i] = value;
            let expected_command = frame[1];
            let result = decode::<()>(&frame, expected_command, 2);
            if value == sound[i] {
                assert_eq!(result, Ok(vec![0x02, 0x58]));
            } else {
                assert_eq!(result, Err(Error::WrongChecksum));
            }
        }
    }
}

#[test]
fn decoding_a_request_finds_the_address_where_the_command_should_be() {
    let frame = encode(0x86, &[0xA0]);
    assert_eq!(decode::<()>(&frame, 0x86, 1), Err(Error::WrongPacketType));
    assert_eq!(decode::<()>(&frame, 0x01, 2), Ok(vec![0x86, 0xA0]));
}

#[test]
fn round_trip_where_request_and_reply_agree() {
    for len in 0..=5usize {
        let payload = vec![0x01u8; len];
        let frame = encode(0x01, &payload);
        assert_eq!(decode::<()>(&frame, 0x01, len), Ok(payload));
    }
}
