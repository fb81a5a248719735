//! Minecraft status/disconnect payloads, packet framing and handshake peeking.

pub mod codec;
pub mod handler;

use vstd::prelude::*;
use crate::minecraft::varint::{mc_frame, append_bytes, decode_varint, lemma_scan_within, spec_decode_varint, varint_bytes, VarIntFault};

verus! {

/// The status (MOTD) answer sent to a pinging client.
pub struct StatusResponse {
    pub version: Version,
    pub players: Players,
    pub description: Description,
}

/// The version block of a status answer.
pub struct Version {
    pub name: String,
    pub protocol: i32,
}

/// The player block of a status answer.
pub struct Players {
    pub max: i32,
    pub online: String,
}

/// The description (MOTD text) block of a status answer.
pub struct Description {
    pub text: String,
}

/// The JSON text of a disconnect packet.
pub struct DisconnectResponse {
    pub text: String,
}

/// A Minecraft packet: its id and its payload.
pub struct MinecraftPacket {
    pub id: i32,
    pub data: Vec<u8>,
}

/// The body of a packet: the `VarInt` id, then the payload.
pub open spec fn packet_body(id: i32, data: Seq<u8>) -> Seq<u8> {
    varint_bytes(id as u32) + data
}

impl MinecraftPacket {
    /// Frames the packet: the `VarInt` length of the body (taken as an
    /// `i32`), then the body (`VarInt` id + payload). A negative id, or a
    /// body length whose `i32` reading is negative, would make the encoder
    /// loop forever, so both are excluded.
    pub fn serialize(self) -> (frame: Vec<u8>)
        requires
            self.id >= 0,
            (packet_body(self.id, self.data@).len() as usize) as i32 >= 0,
        ensures
            frame@ == varint_bytes(((packet_body(self.id, self.data@).len() as usize) as i32) as u32)
                + packet_body(self.id, self.data@),
    {
        let mut body: Vec<u8> = Vec::new();
        codec::write_varint(&mut body, self.id);
        append_bytes(&mut body, self.data.as_slice());
        assert(body@ =~= packet_body(self.id, self.data@));
        let mut frame: Vec<u8> = Vec::new();
        #[verifier::truncate]
        let len = body.len() as i32;
        codec::write_varint(&mut frame, len);
        append_bytes(&mut frame, body.as_slice());
        assert(frame@ =~= varint_bytes(len as u32) + body@);
        frame
    }
}

/// A packet's frame is the frame (`VarInt` length + bytes) of its body:
/// `serialize` frames exactly as `encode_mc_packet` does, for every body
/// that `encode_mc_packet` accepts.
pub proof fn lemma_serialize_is_frame(id: i32, data: Seq<u8>)
    requires
        packet_body(id, data).len() <= i32::MAX,
    ensures
        varint_bytes(((packet_body(id, data).len() as usize) as i32) as u32) + packet_body(id, data)
            == mc_frame(packet_body(id, data)),
{
    let n = packet_body(id, data).len();
    let u = n as usize;
    assert(u == n);
    assert(u <= 0x7fff_ffffusize ==> (u as i32) as u32 == u as u32) by (bit_vector);
    assert(n as u32 == u as u32);
}

/// Where a cursor over `data` stands after `read_exact` of `len` bytes from
/// `pos`: past them, or at the end when fewer remain.
pub open spec fn after_read_exact(data: Seq<u8>, pos: int, len: int) -> int {
    if pos + len <= data.len() { pos + len } else { data.len() as int }
}

/// Peeking at a connection's first bytes: the handshake's "next state"
/// (1 = status, 2 = login, ...), or 1 whenever the bytes are not a complete
/// handshake. `None` marks the bytes on which peeking panics: those whose
/// server-address length decodes to a negative number, which becomes an
/// impossible allocation.
pub open spec fn spec_peek_next_state(data: Seq<u8>) -> Option<i32> {
    let (_, p1) = spec_decode_varint(data, 0);
    let (id, p2) = spec_decode_varint(data, p1);
    if id != Ok::<i32, VarIntFault>(0) {
        Some(1)
    } else {
        let (_, p3) = spec_decode_varint(data, p2);
        let (len, p4) = spec_decode_varint(data, p3);
        let after_string = match len {
            Err(_) => Some(p4),
            Ok(l) => if l < 0 { None } else { Some(after_read_exact(data, p4, l as int)) },
        };
        match after_string {
            None => None,
            Some(p5) => if p5 + 2 > data.len() {
                Some(1)
            } else {
                match spec_decode_varint(data, p5 + 2).0 {
                    Ok(v) => Some(v),
                    Err(_) => Some(1),
                }
            },
        }
    }
}

/// The handshake's "next state" in a connection's first bytes, or 1 when
/// they do not hold a complete handshake. The bytes on which peeking
/// panics (a negative server-address length) are excluded; test them first
/// with `handshake_peek_panics`.
pub fn inspect_handshake_bytes(data: &[u8]) -> (state: i32)
    requires
        spec_peek_next_state(data@) is Some,
    ensures
        spec_peek_next_state(data@) == Some(state),
{
    match peek_next_state(data) {
        Some(s) => s,
        None => 1,
    }
}

/// Whether peeking at these bytes panics (their server-address length
/// decodes to a negative number).
pub fn handshake_peek_panics(data: &[u8]) -> (b: bool)
    ensures
        b == (spec_peek_next_state(data@) is None),
{
    peek_next_state(data).is_none()
}

fn peek_next_state(data: &[u8]) -> (r: Option<i32>)
    ensures
        r == spec_peek_next_state(data@),
{
    let mut offset: usize = 0;
    proof { lemma_scan_within(data@, 0); }
    let _ = decode_varint(data, &mut offset);
    proof { lemma_scan_within(data@, offset as int); }
    let id = decode_varint(data, &mut offset);
    match id {
        Ok(0) => {},
        _ => return Some(1),
    }
    proof { lemma_scan_within(data@, offset as int); }
    let _ = decode_varint(data, &mut offset);
    proof { lemma_scan_within(data@, offset as int); }
    let len = decode_varint(data, &mut offset);
    match len {
        Ok(l) => {
            if l < 0 {
                return None;
            }
            let l = l as usize;
            if l <= data.len() - offset {
                offset = offset + l;
            } else {
                offset = data.len();
            }
        },
        Err(_) => {},
    }
    if data.len() - offset < 2 {
        return Some(1);
    }
    offset = offset + 2;
    match decode_varint(data, &mut offset) {
        Ok(v) => Some(v),
        Err(_) => Some(1),
    }
}

} // verus!
