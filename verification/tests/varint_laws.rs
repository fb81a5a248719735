use enderpearl::errors::EnderError;
use enderpearl::minecraft::varint::{decode_string, decode_varint, encode_mc_packet, encode_varint};

#[test]
fn varint_roundtrip_examples() {
    for v in [0, 1, -1, 127, 128, 255, 25565, i32::MAX, i32::MIN, -123456] {
        let mut bytes = encode_varint(v);
        let len = bytes.len();
        assert!((1..=5).contains(&len));
        bytes.extend_from_slice(&[0xde, 0xad]);
        let mut offset = 0;
        assert_eq!(decode_varint(&bytes, &mut offset).unwrap(), v);
        assert_eq!(offset, len);
    }
}

#[test]
fn negative_varint_takes_five_bytes() {
    assert_eq!(encode_varint(i32::MIN), vec![0x80, 0x80, 0x80, 0x80, 0x08]);
    assert_eq!(encode_varint(-2).len(), 5);
}

#[test]
fn string_frame_roundtrip() {
    for s in ["", "hello", "§cServer offline — starting up...", "日本語"] {
        let mut frame = encode_mc_packet(s.as_bytes()).unwrap();
        let len = frame.len();
        frame.push(0x42);
        let mut offset = 0;
        assert_eq!(decode_string(&frame, &mut offset).unwrap(), s);
        assert_eq!(offset, len);
    }
}

#[test]
fn decode_varint_truncated_message() {
    let mut offset = 3;
    assert_eq!(
        decode_varint(&[1, 2], &mut offset),
        Err(EnderError::PacketParse("Unexpected end of data while decoding VarInt".into()))
    );
    assert_eq!(offset, 3);
}

#[test]
fn decode_string_negative_length() {
    let data = [0xff, 0xff, 0xff, 0xff, 0x0f, b'a'];
    let mut offset = 0;
    assert_eq!(
        decode_string(&data, &mut offset),
        Err(EnderError::PacketParse("Negative VarInt length for string".into()))
    );
    assert_eq!(offset, 5);
}

#[test]
fn decode_string_too_long_message() {
    let data = [0x05, 0x68, 0x65];
    let mut offset = 0;
    assert_eq!(
        decode_string(&data, &mut offset),
        Err(EnderError::PacketParse("String length exceeds remaining data".into()))
    );
    assert_eq!(offset, 1);
}

#[test]
fn decode_string_invalid_utf8() {
    let data = [0x02, 0xff, 0xfe];
    let mut offset = 0;
    match decode_string(&data, &mut offset) {
        Err(EnderError::PacketParse(m)) => {
            assert!(m.starts_with("Invalid UTF-8 in string: "));
            assert!(m.len() > "Invalid UTF-8 in string: ".len());
        }
        other => panic!("unexpected {other:?}"),
    }
    assert_eq!(offset, 1);
}

#[test]
fn encode_mc_packet_empty_payload() {
    assert_eq!(encode_mc_packet(&[]).unwrap(), vec![0]);
}

#[test]
fn encode_mc_packet_long_payload_uses_two_byte_length() {
    let payload = vec![0u8; 300];
    let packet = encode_mc_packet(&payload).unwrap();
    assert_eq!(&packet[..2], &[0xac, 0x02]);
    assert_eq!(packet.len(), 302);
}
