use mcproto::packets::{
    discard_front, extract_frame, frame_bytes, u128_from_be, u128_to_be, FrameOutcome,
};
use mcproto::utils::{convert_buf_to_string, read_packet_id, write_ivar, write_utf8_string};
use mcproto::varint::{VarInt, VarIntDecodeError};

fn round_trip(value: i32) {
    let encoded = VarInt::new(value).as_bytes();
    let decoded = VarInt::read(&encoded).expect("a fresh encoding must decode");
    assert_eq!(decoded.value, value);
    assert_eq!(decoded.length(), encoded.len());
}

#[test]
fn varint_round_trip_tested_values() {
    for value in [0, 1, 127, 128, 255, 2097151, 2147483647, -1] {
        round_trip(value);
    }
}

#[test]
fn varint_known_encodings() {
    assert_eq!(VarInt::new(0).as_bytes(), vec![0x00]);
    assert_eq!(VarInt::new(1).as_bytes(), vec![0x01]);
    assert_eq!(VarInt::new(127).as_bytes(), vec![0x7F]);
    assert_eq!(VarInt::new(128).as_bytes(), vec![0x80, 0x01]);
    assert_eq!(VarInt::new(255).as_bytes(), vec![0xFF, 0x01]);
    assert_eq!(VarInt::new(2097151).as_bytes(), vec![0xFF, 0xFF, 0x7F]);
    assert_eq!(VarInt::new(2147483647).as_bytes(), vec![0xFF, 0xFF, 0xFF, 0xFF, 0x07]);
}

#[test]
fn varint_minus_one_encodes_as_unsigned_bit_pattern() {
    assert_eq!(VarInt::new(-1).as_bytes(), vec![0xFF, 0xFF, 0xFF, 0xFF, 0x0F]);
}

#[test]
fn varint_five_continuation_bytes_fail_too_large() {
    let all_continuation = [0x80u8; 5];
    match VarInt::read(&all_continuation) {
        Err(VarIntDecodeError::TooLarge) => {},
        other => panic!("expected TooLarge, got {other:?}"),
    }
    let longer = [0xFFu8; 8];
    match VarInt::read(&longer) {
        Err(VarIntDecodeError::TooLarge) => {},
        other => panic!("expected TooLarge, got {other:?}"),
    }
}

#[test]
fn varint_empty_buffer_fails_out_of_range() {
    match VarInt::read(&[]) {
        Err(VarIntDecodeError::OutOfRange) => {},
        other => panic!("expected OutOfRange, got {other:?}"),
    }
}

#[test]
fn varint_truncated_buffer_fails_out_of_range() {
    match VarInt::read(&[0x80, 0x80]) {
        Err(VarIntDecodeError::OutOfRange) => {},
        other => panic!("expected OutOfRange, got {other:?}"),
    }
}

#[test]
fn varint_minimal_encodings_survive_decode_then_encode() {
    let minimal: [&[u8]; 6] = [
        &[0x00],
        &[0x7F],
        &[0xFF, 0x01],
        &[0x80, 0x80, 0x01],
        &[0xFF, 0xFF, 0xFF, 0xFF, 0x0F],
        &[0x80, 0x80, 0x80, 0x80, 0x01],
    ];
    for bytes in minimal {
        let decoded = VarInt::read(bytes).expect("a minimal encoding must decode");
        assert_eq!(decoded.as_bytes(), bytes, "re-encoding of {bytes:?} changed");
    }
}

#[test]
fn varint_decode_stops_at_terminating_byte() {
    // trailing garbage after the terminator is ignored
    let decoded = VarInt::read(&[0x05, 0xAA, 0xBB]).unwrap();
    assert_eq!(decoded.value, 5);
    assert_eq!(decoded.length(), 1);
}

#[test]
fn read_packet_id_reads_leading_varint() {
    let id = read_packet_id(&[0x02, 0x10, 0x20]).unwrap();
    assert_eq!(id.value, 2);
}

#[test]
fn write_ivar_appends_encoding() {
    let mut buffer = vec![0xAAu8];
    write_ivar(&mut buffer, 300);
    assert_eq!(buffer, vec![0xAA, 0xAC, 0x02]);
}

#[test]
fn write_utf8_string_prefixes_length() {
    let mut buffer: Vec<u8> = Vec::new();
    write_utf8_string(&mut buffer, String::from("hi"));
    assert_eq!(buffer, vec![0x02, b'h', b'i']);

    let mut empty: Vec<u8> = Vec::new();
    write_utf8_string(&mut empty, String::new());
    assert_eq!(empty, vec![0x00]);
}

#[test]
fn convert_buf_to_string_maps_bytes_to_chars() {
    assert_eq!(convert_buf_to_string(&[b'a', b'b', b'c']), "abc");
    assert_eq!(convert_buf_to_string(&[]), "");
    // a byte above 0x7F becomes the character with that code point
    assert_eq!(convert_buf_to_string(&[0xE9]), "\u{e9}");
}

#[test]
fn u128_big_endian_round_trip() {
    for value in [0u128, 1, 0xFF, 0x1234_5678_9ABC_DEF0, u128::MAX] {
        let bytes = u128_to_be(value);
        assert_eq!(bytes.len(), 16);
        assert_eq!(u128_from_be(&bytes), value);
    }
    assert_eq!(
        u128_to_be(1),
        vec![0, 0, 0, 0, 0, 0, 0, 0, 0, 0, 0, 0, 0, 0, 0, 1]
    );
}

#[test]
fn extract_frame_cuts_one_frame() {
    // length 3, packet id 0x00, payload [0x10, 0x20], then leftover bytes
    let buffer = vec![0x03, 0x00, 0x10, 0x20, 0x99];
    match extract_frame(&buffer) {
        FrameOutcome::Frame { body, consumed } => {
            assert_eq!(body, vec![0x00, 0x10, 0x20]);
            assert_eq!(consumed, 4);
        },
        other => panic!("expected a frame, got {other:?}"),
    }
}

#[test]
fn extract_frame_waits_for_missing_bytes() {
    // declared length 5, only 2 payload bytes so far
    let partial = vec![0x05, 0x00, 0x10];
    assert!(matches!(extract_frame(&partial), FrameOutcome::NeedMore));
    // incomplete length prefix
    assert!(matches!(extract_frame(&[]), FrameOutcome::NeedMore));
    assert!(matches!(extract_frame(&[0x80]), FrameOutcome::NeedMore));
}

#[test]
fn discard_front_drops_a_consumed_frame() {
    let mut acc = vec![0x03, 0x00, 0x10, 0x20, 0x99];
    discard_front(&mut acc, 4);
    assert_eq!(acc, vec![0x99]);
}

#[test]
fn frame_bytes_prefixes_the_byte_count() {
    assert_eq!(frame_bytes(&[0x01, 0xAA]), vec![0x02, 0x01, 0xAA]);
    assert_eq!(frame_bytes(&[]), vec![0x00]);
}

#[test]
fn extract_frame_zero_length_closes() {
    assert!(matches!(extract_frame(&[0x00]), FrameOutcome::Close));
}

#[test]
fn extract_frame_rejects_bad_length_prefix() {
    // five continuation bytes cannot be a frame length
    assert!(matches!(extract_frame(&[0xFF; 6]), FrameOutcome::Malformed));
    // a negative declared length cannot be a frame length
    let negative = vec![0xFF, 0xFF, 0xFF, 0xFF, 0x0F];
    assert!(matches!(extract_frame(&negative), FrameOutcome::Malformed));
}
