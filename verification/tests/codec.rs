use enderpearl::mc::codec::{write_string, write_varint};
use enderpearl::mc::{handshake_peek_panics, inspect_handshake_bytes, MinecraftPacket};
use enderpearl::minecraft::varint::{decode_string, decode_varint, encode_mc_packet, encode_varint, VarIntReader, VarIntStep};

#[test]
fn write_varint_matches_encode_varint() {
    for v in [0, 1, 127, 128, 255, 300, 16384, 2097151, 2097152, i32::MAX] {
        let mut buf = vec![0xaa];
        write_varint(&mut buf, v);
        let mut expected = vec![0xaa];
        expected.extend(encode_varint(v));
        assert_eq!(buf, expected);
    }
}

#[test]
fn write_string_prefixes_byte_length() {
    let mut buf = Vec::new();
    write_string(&mut buf, "héllo");
    // "héllo" is 6 bytes of UTF-8
    assert_eq!(buf, vec![6, b'h', 0xc3, 0xa9, b'l', b'l', b'o']);
}

#[test]
fn write_string_reads_back() {
    for text in ["", "héllo", "{\"text\":\"§cServer offline\"}"] {
        let mut buf = Vec::new();
        write_string(&mut buf, text);
        assert_eq!(buf, encode_mc_packet(text.as_bytes()).unwrap());
        buf.extend_from_slice(&[0xff, 0x00]);
        let mut offset = 0;
        assert_eq!(decode_string(&buf, &mut offset).unwrap(), text);
        assert_eq!(offset, buf.len() - 2);
    }
}

#[test]
fn serialize_frames_id_and_payload() {
    let packet = MinecraftPacket { id: 0, data: vec![1, 2, 3] };
    assert_eq!(packet.serialize(), vec![4, 0, 1, 2, 3]);
    let packet = MinecraftPacket { id: 300, data: vec![9] };
    // id 300 = [0xac, 0x02]
    assert_eq!(packet.serialize(), vec![3, 0xac, 0x02, 9]);
}

#[test]
fn serialize_agrees_with_encode_mc_packet() {
    let data = vec![7u8; 200];
    let mut body = encode_varint(5);
    body.extend_from_slice(&data);
    assert_eq!(MinecraftPacket { id: 5, data }.serialize(), encode_mc_packet(&body).unwrap());
}

fn handshake(next_state: u8) -> Vec<u8> {
    // id 0, protocol 766 (0xfe 0x05), "localhost", port 25565, next state
    let mut body = vec![0x00, 0xfe, 0x05, 9];
    body.extend_from_slice(b"localhost");
    body.extend_from_slice(&[0x63, 0xdd, next_state]);
    encode_mc_packet(&body).unwrap()
}

#[test]
fn inspect_handshake_reads_next_state() {
    assert_eq!(inspect_handshake_bytes(&handshake(2)), 2);
    assert_eq!(inspect_handshake_bytes(&handshake(1)), 1);
    let mut with_more = handshake(2);
    with_more.extend_from_slice(&[1, 0]);
    assert_eq!(inspect_handshake_bytes(&with_more), 2);
}

#[test]
fn inspect_handshake_defaults_to_status() {
    assert_eq!(inspect_handshake_bytes(&[]), 1);
    // packet id 1 is no handshake
    assert_eq!(inspect_handshake_bytes(&[5, 1, 2, 3]), 1);
    // cut before the port
    let full = handshake(2);
    assert_eq!(inspect_handshake_bytes(&full[..full.len() - 2]), 1);
    assert!(!handshake_peek_panics(&full));
}

#[test]
fn inspect_handshake_negative_string_length_is_flagged() {
    // length, id 0, protocol 0, then string length -1
    let data = [10, 0, 0, 0xff, 0xff, 0xff, 0xff, 0x0f];
    assert!(handshake_peek_panics(&data));
}

#[test]
fn reader_decodes_byte_by_byte() {
    for v in [0, 127, 128, -1, i32::MIN, 25565] {
        let bytes = encode_varint(v);
        let mut reader = VarIntReader::new();
        for (i, b) in bytes.iter().enumerate() {
            let step = reader.push(*b);
            if i + 1 < bytes.len() {
                assert_eq!(step, VarIntStep::NeedMore);
            } else {
                assert_eq!(step, VarIntStep::Done(v));
            }
        }
    }
}

#[test]
fn reader_rejects_six_byte_varint() {
    let mut reader = VarIntReader::new();
    for _ in 0..4 {
        assert_eq!(reader.push(0x80), VarIntStep::NeedMore);
    }
    assert_eq!(reader.push(0x80), VarIntStep::TooLarge);
}

#[test]
fn decode_varint_too_large() {
    let data = [0x80, 0x80, 0x80, 0x80, 0x80, 0x01];
    let mut offset = 0;
    let err = decode_varint(&data, &mut offset).unwrap_err();
    assert_eq!(err, enderpearl::errors::EnderError::PacketParse("VarInt too large (exceeds 32 bits)".into()));
    assert_eq!(offset, 5);
}

#[test]
fn reader_follows_decode_varint_on_streams() {
    let streams: [&[u8]; 5] = [
        &[0x05, 0xff],
        &[0xdd, 0xc7, 0x01, 0x00],
        &[0x80, 0x80, 0x80, 0x80, 0x80, 0x01],
        &[0xff, 0xff, 0xff, 0xff, 0x0f],
        &[0x80, 0x80],
    ];
    for b in streams {
        let mut offset = 0;
        let expected = decode_varint(b, &mut offset);
        let mut reader = VarIntReader::new();
        let mut answer = VarIntStep::NeedMore;
        let mut used = 0;
        for byte in b {
            used += 1;
            answer = reader.push(*byte);
            if answer != VarIntStep::NeedMore {
                break;
            }
        }
        assert_eq!(used, offset);
        match expected {
            Ok(v) => assert_eq!(answer, VarIntStep::Done(v)),
            Err(m) if m == enderpearl::errors::EnderError::PacketParse("VarInt too large (exceeds 32 bits)".into()) => {
                assert_eq!(answer, VarIntStep::TooLarge)
            }
            Err(_) => {
                // the stream ended while the reader still waited
                assert_eq!(answer, VarIntStep::NeedMore);
                assert_eq!(used, b.len());
            }
        }
    }
}
