use vstd::prelude::*;
use vstd::string::{StringExecFns, StringSliceAdditionalSpecFns};
use crate::errors::EnderError;
use crate::minecraft::varint::{
    append_bytes, decode_string, decode_varint, encode_mc_packet, encode_varint, lemma_scan_within, lemma_varint_small, lemma_varint_at, lemma_varint_len, lemma_string_frame_at,
    mc_frame, msg_payload_too_long, spec_decode_varint, spec_read_string, varint_bytes, varint_fault_text,
    VarIntFault,
};
use crate::routing::types::StartupOn;
use crate::text::digit_str;
use crate::mc::spec_peek_next_state;
use vstd::utf8::{decode_utf8, encode_utf8, encode_utf8_decode_utf8, encode_utf8_valid_utf8, valid_utf8};

verus! {

/// A parsed handshake packet.
pub struct Handshake {
    pub proto_ver: i32,
    pub addr: String,
    pub port: u16,
    pub next_state: i32,
    pub raw: Vec<u8>,
}

/// The character of a hexadecimal digit (lower case).
pub open spec fn hex_digit(d: nat) -> char {
    if d < 10 { (48 + d) as char } else { (87 + d) as char }
}

/// The lower-case hexadecimal digits of `n`, without leading zeros.
pub open spec fn hex_text(n: nat) -> Seq<char>
    decreases n,
{
    if n < 16 {
        seq![hex_digit(n)]
    } else {
        hex_text(n / 16) + seq![hex_digit(n % 16)]
    }
}

/// `{:02x}` of a 32-bit pattern: its hex digits, padded to two with a zero.
pub open spec fn hex_pad2(n: nat) -> Seq<char> {
    if n < 16 { seq!['0'] + hex_text(n) } else { hex_text(n) }
}

/// Appends the lower-case hexadecimal digits of `n` to `s`.
fn append_hex(s: &mut String, n: u32)
    ensures
        final(s)@ == old(s)@ + hex_text(n as nat),
    decreases n,
{
    if n >= 16 {
        append_hex(s, n / 16);
    }
    s.append(digit_str(n % 16));
}

/// `v` as `{:02x}` formats it (`LowerHex` on `i32`): the two's complement
/// bit pattern in lower-case hex, zero-padded to width two.
fn hex_02x(v: i32) -> (s: String)
    ensures
        s@ == hex_pad2((v as u32) as nat),
{
    #[verifier::truncate]
    let u = v as u32;
    let mut s = String::new();
    if u < 16 {
        s.append("0");
        proof { reveal_strlit("0"); }
    }
    append_hex(&mut s, u);
    s
}

/// The value of a hexadecimal digit character ('0'-'9', 'a'-'f').
pub open spec fn hex_char_value(c: char) -> int {
    if c <= '9' { c as u32 - 48 } else { c as u32 - 87 }
}

/// The value of a run of hexadecimal digits, most significant first.
pub open spec fn hex_digits_value(t: Seq<char>) -> int
    decreases t.len(),
{
    if t.len() == 0 {
        0
    } else {
        hex_digits_value(t.drop_last()) * 16 + hex_char_value(t.last())
    }
}

/// `hex_text(n)` writes `n` in lower-case hexadecimal: every character is
/// one of "0123456789abcdef", digit `d` being character `d` of it, the text
/// reads back as `n`, and it has no leading zero (but for `n == 0`). The
/// padded form `hex_pad2` is at least two digits long and reads back as `n`
/// too.
pub proof fn lemma_hex_text_value(n: nat)
    ensures
        forall|d: nat| d < 16 ==> #[trigger] hex_digit(d) == "0123456789abcdef"@[d as int],
        forall|i: int| 0 <= i < hex_text(n).len() ==> "0123456789abcdef"@.contains(#[trigger] hex_text(n)[i]),
        hex_digits_value(hex_text(n)) == n,
        n > 0 ==> hex_text(n)[0] != '0',
        hex_pad2(n).len() >= 2,
        hex_digits_value(hex_pad2(n)) == n,
    decreases n,
{
    reveal_strlit("0123456789abcdef");
    assert forall|d: nat| d < 16 implies #[trigger] hex_digit(d) == "0123456789abcdef"@[d as int] by {
    assert(hex_digit(0) == "0123456789abcdef"@[0]);
    assert(hex_digit(1) == "0123456789abcdef"@[1]);
    assert(hex_digit(2) == "0123456789abcdef"@[2]);
    assert(hex_digit(3) == "0123456789abcdef"@[3]);
    assert(hex_digit(4) == "0123456789abcdef"@[4]);
    assert(hex_digit(5) == "0123456789abcdef"@[5]);
    assert(hex_digit(6) == "0123456789abcdef"@[6]);
    assert(hex_digit(7) == "0123456789abcdef"@[7]);
    assert(hex_digit(8) == "0123456789abcdef"@[8]);
    assert(hex_digit(9) == "0123456789abcdef"@[9]);
    assert(hex_digit(10) == "0123456789abcdef"@[10]);
    assert(hex_digit(11) == "0123456789abcdef"@[11]);
    assert(hex_digit(12) == "0123456789abcdef"@[12]);
    assert(hex_digit(13) == "0123456789abcdef"@[13]);
    assert(hex_digit(14) == "0123456789abcdef"@[14]);
    assert(hex_digit(15) == "0123456789abcdef"@[15]);
    }
    let t = hex_text(n);
    if n < 16 {
        assert(t.drop_last() =~= Seq::<char>::empty());
        assert(t.last() == hex_digit(n));
        assert(hex_digits_value(t.drop_last()) == 0);
        assert(hex_digits_value(t) == hex_char_value(hex_digit(n)));
        assert("0123456789abcdef"@[n as int] == t[0]);
        let p = seq!['0'] + t;
        assert(p.drop_last() =~= seq!['0']);
        assert(seq!['0'].drop_last() =~= Seq::<char>::empty());
        assert(hex_digits_value(seq!['0']) == 0);
    } else {
        let q = n / 16;
        let r = n % 16;
        lemma_hex_text_value(q);
        let head = hex_text(q);
        assert(t == head + seq![hex_digit(r)]);
        assert(t.drop_last() =~= head);
        assert(t.last() == hex_digit(r));
        assert(hex_digits_value(t) == hex_digits_value(head) * 16 + hex_char_value(hex_digit(r)));
        assert("0123456789abcdef"@[r as int] == hex_digit(r));
        assert forall|i: int| 0 <= i < t.len() implies "0123456789abcdef"@.contains(#[trigger] t[i]) by {
            if i < head.len() {
                assert(t[i] == head[i]);
            } else {
                assert(t[i] == "0123456789abcdef"@[r as int]);
            }
        }
        assert(t[0] == head[0]);
        assert(q * 16 + r == n) by (nonlinear_arith)
            requires
                q == n / 16,
                r == n % 16,
        ;
        assert(q >= 1) by (nonlinear_arith)
            requires
                q == n / 16,
                n >= 16,
        ;
        assert(head.len() >= 1);
    }
}

/// The message of the error for a packet that is not a handshake.
pub open spec fn msg_not_handshake(id: i32) -> Seq<char> {
    "Expected handshake packet ID 0x00, got "@ + hex_pad2((id as u32) as nat)
}

/// Parsing a handshake packet (`VarInt` length, `VarInt` id 0, `VarInt`
/// protocol version, string address, big-endian `u16` port, `VarInt` next
/// state): the fields, or the message of the first error. `None` marks the
/// packets on which parsing panics: those that end before the two port
/// bytes, where reading the port indexes past the end.
pub open spec fn spec_parse_handshake(raw: Seq<u8>) -> Option<Result<(i32, Seq<char>, u16, i32), Seq<char>>> {
    let (r1, p1) = spec_decode_varint(raw, 0);
    match r1 {
        Err(f) => Some(Err(varint_fault_text(f))),
        Ok(_) => {
            let (r2, p2) = spec_decode_varint(raw, p1);
            match r2 {
                Err(f) => Some(Err(varint_fault_text(f))),
                Ok(id) => if id != 0 {
                    Some(Err(msg_not_handshake(id)))
                } else {
                    let (r3, p3) = spec_decode_varint(raw, p2);
                    match r3 {
                        Err(f) => Some(Err(varint_fault_text(f))),
                        Ok(proto) => {
                            let (s, p4) = spec_read_string(raw, p3);
                            match s {
                                Err(m) => Some(Err(m)),
                                Ok(addr) => if p4 + 2 > raw.len() {
                                    None
                                } else {
                                    let port = (raw[p4] as int * 256 + raw[p4 + 1] as int) as u16;
                                    match spec_decode_varint(raw, p4 + 2).0 {
                                        Err(f) => Some(Err(varint_fault_text(f))),
                                        Ok(next) => Some(Ok((proto, addr, port, next))),
                                    }
                                },
                            }
                        },
                    }
                },
            }
        },
    }
}

/// Parses a handshake packet; see `spec_parse_handshake`. Packets that end
/// before the port bytes, on which parsing panics, are excluded; test them
/// first with `handshake_parse_panics`.
pub fn parse_handshake(raw: &[u8]) -> (r: Result<Handshake, EnderError>)
    requires
        spec_parse_handshake(raw@) is Some,
    ensures
        match spec_parse_handshake(raw@)->0 {
            Ok((proto, addr, port, next)) => r matches Ok(h) && h.proto_ver == proto && h.addr@ == addr
                && h.port == port && h.next_state == next && h.raw@ == raw@,
            Err(msg) => r matches Err(EnderError::PacketParse(m)) && m@ == msg,
        },
{
    match parse_handshake_checked(raw) {
        Some(r) => r,
        None => Err(EnderError::PacketParse("truncated handshake".to_owned())),
    }
}

/// Whether parsing these bytes as a handshake panics (they end before the
/// port bytes).
pub fn handshake_parse_panics(raw: &[u8]) -> (b: bool)
    ensures
        b == (spec_parse_handshake(raw@) is None),
{
    parse_handshake_checked(raw).is_none()
}

fn parse_handshake_checked(raw: &[u8]) -> (r: Option<Result<Handshake, EnderError>>)
    ensures
        (r is None) == (spec_parse_handshake(raw@) is None),
        r matches Some(res) ==> match spec_parse_handshake(raw@)->0 {
            Ok((proto, addr, port, next)) => res matches Ok(h) && h.proto_ver == proto && h.addr@ == addr
                && h.port == port && h.next_state == next && h.raw@ == raw@,
            Err(msg) => res matches Err(EnderError::PacketParse(m)) && m@ == msg,
        },
{
    let mut offset: usize = 0;
    proof { lemma_scan_within(raw@, 0); }
    if let Err(e) = decode_varint(raw, &mut offset) {
        return Some(Err(e));
    }
    proof { lemma_scan_within(raw@, offset as int); }
    let packet_id = match decode_varint(raw, &mut offset) {
        Ok(v) => v,
        Err(e) => return Some(Err(e)),
    };
    if packet_id != 0 {
        let mut msg = "Expected handshake packet ID 0x00, got ".to_owned();
        let hex = hex_02x(packet_id);
        msg.append(hex.as_str());
        return Some(Err(EnderError::PacketParse(msg)));
    }
    proof { lemma_scan_within(raw@, offset as int); }
    let proto_ver = match decode_varint(raw, &mut offset) {
        Ok(v) => v,
        Err(e) => return Some(Err(e)),
    };
    proof { lemma_scan_within(raw@, offset as int); }
    let ghost p3 = offset as int;
    let addr = match decode_string(raw, &mut offset) {
        Ok(s) => s,
        Err(e) => return Some(Err(e)),
    };
    proof {
        lemma_scan_within(raw@, p3);
    }
    if offset > raw.len() || raw.len() - offset < 2 {
        return None;
    }
    let port: u16 = (raw[offset] as u16) * 256 + (raw[offset + 1] as u16);
    offset = offset + 2;
    let next_state = match decode_varint(raw, &mut offset) {
        Ok(v) => v,
        Err(e) => return Some(Err(e)),
    };
    Some(Ok(Handshake { proto_ver, addr, port, next_state, raw: vstd::slice::slice_to_vec(raw) }))
}


/// The status JSON answered while the backend is offline, unless configured.
pub open spec fn default_motd() -> Seq<char> {
    "{\"version\":{\"name\":\"1.21\",\"protocol\":766},\"players\":{\"max\":0,\"online\":0},\"description\":{\"text\":\"§cServer offline — starting up...\"}}"@
}

/// The disconnect JSON sent to a joining player while the backend is
/// offline, unless configured.
pub open spec fn default_disconnect() -> Seq<char> {
    "{\"text\":\"§cServer offline — starting up...\"}"@
}

/// What to do with a connection once its handshake is known, by the
/// handshake's next state.
#[derive(Debug, Clone, Copy, PartialEq, Eq)]
pub enum ConnectionRoute {
    /// Next state 1: answer the status ping ourselves.
    Status,
    /// Next state 2: disconnect the player with the offline message.
    Login,
    /// Anything else: hand the connection, handshake included, to a backend.
    Forward,
}

/// The settings of the offline proxy for Minecraft Java.
pub struct JavaProxy {
    pub targets: Vec<String>,
    pub startup_on: StartupOn,
    pub shutdown_timeout_secs: u64,
    pub check_interval_secs: u64,
    pub min_players: usize,
    pub offline_motd: Option<String>,
    pub offline_message: Option<String>,
    pub startup_webhook: Option<String>,
    pub shutdown_webhook: Option<String>,
    pub debug: bool,
}

fn clone_or_default(o: &Option<String>, default: &str) -> (r: String)
    ensures
        match *o {
            Some(s) => r == s,
            None => r@ == default@,
        },
{
    match o {
        Some(s) => s.clone(),
        None => default.to_owned(),
    }
}

impl JavaProxy {
    /// The status JSON answered while offline: the configured MOTD, or the
    /// default one.
    pub fn status_motd(&self) -> (r: String)
        ensures
            match self.offline_motd {
                Some(m) => r == m,
                None => r@ == default_motd(),
            },
    {
        clone_or_default(
            &self.offline_motd,
            "{\"version\":{\"name\":\"1.21\",\"protocol\":766},\"players\":{\"max\":0,\"online\":0},\"description\":{\"text\":\"§cServer offline — starting up...\"}}",
        )
    }

    /// The disconnect JSON sent while offline: the configured message, or
    /// the default one.
    pub fn disconnect_text(&self) -> (r: String)
        ensures
            match self.offline_message {
                Some(m) => r == m,
                None => r@ == default_disconnect(),
            },
    {
        clone_or_default(&self.offline_message, "{\"text\":\"§cServer offline — starting up...\"}")
    }

    /// Where a connection goes, by its handshake's next state.
    pub fn route_for(next_state: i32) -> (r: ConnectionRoute)
        ensures
            r == if next_state == 1 {
                ConnectionRoute::Status
            } else if next_state == 2 {
                ConnectionRoute::Login
            } else {
                ConnectionRoute::Forward
            },
    {
        if next_state == 1 {
            ConnectionRoute::Status
        } else if next_state == 2 {
            ConnectionRoute::Login
        } else {
            ConnectionRoute::Forward
        }
    }

    /// Whether a connection on this route asks to wake the backend: a join
    /// always does, a status ping only when waking on ping or always.
    pub fn wakes_on(&self, route: ConnectionRoute) -> (b: bool)
        ensures
            b == match route {
                ConnectionRoute::Status => self.startup_on == StartupOn::Ping || self.startup_on == StartupOn::Always,
                ConnectionRoute::Login => true,
                ConnectionRoute::Forward => false,
            },
    {
        match route {
            ConnectionRoute::Status => match self.startup_on {
                StartupOn::Ping | StartupOn::Always => true,
                StartupOn::Join => false,
            },
            ConnectionRoute::Login => true,
            ConnectionRoute::Forward => false,
        }
    }

    /// Whether the inactivity monitor runs: only with a lifecycle handler
    /// and a non-zero shutdown timeout.
    pub fn runs_monitor(&self, has_handler: bool) -> (b: bool)
        ensures
            b == (has_handler && self.shutdown_timeout_secs > 0),
    {
        has_handler && self.shutdown_timeout_secs > 0
    }
}

/// The frame of an offline answer (status or disconnect): packet id 0
/// followed by the JSON as a length-prefixed string, itself length-prefixed.
/// Fails when a length exceeds `i32::MAX`.
pub open spec fn spec_offline_frame(json: Seq<u8>) -> Option<Seq<u8>> {
    if json.len() > i32::MAX {
        None
    } else {
        let packet = seq![0u8] + mc_frame(json);
        if packet.len() > i32::MAX { None } else { Some(mc_frame(packet)) }
    }
}

/// Builds the frame of an offline answer carrying `json`; see
/// `spec_offline_frame`.
pub fn offline_response_frame(json: &str) -> (r: Result<Vec<u8>, EnderError>)
    ensures
        match spec_offline_frame(json.spec_bytes()) {
            Some(f) => r matches Ok(v) && v@ == f,
            None => r matches Err(EnderError::PacketParse(m)) && m@ == msg_payload_too_long(),
        },
{
    let mut packet = encode_varint(0);
    assert(packet@ =~= seq![0u8]) by {
        lemma_varint_small(0);
    }
    let inner = match encode_mc_packet(json.as_bytes()) {
        Ok(p) => p,
        Err(e) => return Err(e),
    };
    append_bytes(&mut packet, inner.as_slice());
    encode_mc_packet(packet.as_slice())
}

/// The host part of an address: its bytes before the first ':'.
pub open spec fn host_part(b: Seq<u8>) -> Seq<u8>
    decreases b.len(),
{
    if b.len() == 0 || b[0] == 0x3au8 {
        Seq::empty()
    } else {
        seq![b[0]] + host_part(b.drop_first())
    }
}

/// The host part is the address up to its first ':' (byte 0x3a): a prefix
/// that holds no ':', followed by ':' when it is not the whole address.
pub proof fn lemma_host_part_before_colon(b: Seq<u8>)
    ensures
        host_part(b).len() <= b.len(),
        host_part(b) == b.take(host_part(b).len() as int),
        forall|i: int| 0 <= i < host_part(b).len() ==> #[trigger] host_part(b)[i] != 0x3au8,
        host_part(b).len() < b.len() ==> b[host_part(b).len() as int] == 0x3au8,
    decreases b.len(),
{
    if b.len() > 0 && b[0] != 0x3au8 {
        let rest = b.drop_first();
        lemma_host_part_before_colon(rest);
        let h = host_part(b);
        assert(h == seq![b[0]] + host_part(rest));
        assert(h =~= b.take(h.len() as int)) by {
            assert forall|i: int| 0 <= i < h.len() implies h[i] == b.take(h.len() as int)[i] by {
                if i > 0 {
                    assert(h[i] == host_part(rest)[i - 1]);
                    assert(rest[i - 1] == b[i]);
                }
            }
        }
        assert forall|i: int| 0 <= i < h.len() implies #[trigger] h[i] != 0x3au8 by {
            if i > 0 {
                assert(h[i] == host_part(rest)[i - 1]);
            }
        }
        if h.len() < b.len() {
            assert(b[h.len() as int] == rest[host_part(rest).len() as int]);
        }
    } else {
        assert(b.take(0) =~= Seq::<u8>::empty());
    }
}

/// The handshake body of a status probe: packet id 0, protocol version -1,
/// the host as a string, port 25565, next state 1.
pub open spec fn probe_handshake(host: Seq<u8>) -> Seq<u8> {
    seq![0u8] + varint_bytes(0xffff_ffffu32) + mc_frame(host) + seq![0x63u8, 0xdd] + seq![1u8]
}

fn host_bytes(target: &str) -> (r: &[u8])
    ensures
        r@ == host_part(target.spec_bytes()),
{
    let b = target.as_bytes();
    let mut i: usize = 0;
    assert(b@.skip(0) =~= b@);
    assert(b@.subrange(0, 0) =~= Seq::<u8>::empty());
    while i < b.len() && b[i] != 0x3a
        invariant
            i <= b@.len(),
            host_part(b@) == b@.subrange(0, i as int) + host_part(b@.skip(i as int)),
        decreases b@.len() - i,
    {
        proof {
            let t = b@.skip(i as int);
            assert(t[0] == b@[i as int]);
            assert(t.drop_first() =~= b@.skip(i + 1));
            assert(b@.subrange(0, i + 1) =~= b@.subrange(0, i as int) + seq![b@[i as int]]);
        }
        i = i + 1;
    }
    proof {
        let t = b@.skip(i as int);
        if i < b@.len() {
            assert(t[0] == b@[i as int]);
        }
        assert(host_part(t) =~= Seq::<u8>::empty());
        assert(host_part(b@) =~= b@.subrange(0, i as int));
    }
    &b[0..i]
}

/// What the status probe writes, the handshake parser reads back: the frame
/// of a probe handshake for valid UTF-8 host bytes parses as protocol
/// version -1, that host, port 25565 and next state 1.
#[verifier::spinoff_prover]
#[verifier::rlimit(40)]
pub proof fn lemma_probe_handshake_parses(host: Seq<u8>)
    requires
        valid_utf8(host),
        probe_handshake(host).len() <= i32::MAX,
    ensures
        spec_parse_handshake(mc_frame(probe_handshake(host))) == Some(
            Ok::<(i32, Seq<char>, u16, i32), Seq<char>>((-1i32, decode_utf8(host), 25565u16, 1i32)),
        ),
{
    let body = probe_handshake(host);
    let data = mc_frame(body);
    let len = body.len();
    let lv = len as u32;
    assert(lv == len);
    assert(lv <= 0x7fff_ffffu32 ==> (lv as i32) as u32 == lv) by (bit_vector);
    let e0 = varint_bytes(lv);
    let minus_one = varint_bytes(0xffff_ffffu32);
    assert(((-1i32) as u32) == 0xffff_ffffu32) by (bit_vector);
    lemma_varint_small(0);
    lemma_varint_small(1);
    lemma_varint_len(0xffff_ffffu32);
    let hf = mc_frame(host);
    // the packet length
    assert(data.skip(0) =~= varint_bytes((lv as i32) as u32) + body);
    lemma_varint_at(data, 0, lv as i32, body);
    let p1 = e0.len() as int;
    // the packet id
    let after_id = minus_one + hf + seq![0x63u8, 0xdd] + seq![1u8];
    assert(data.skip(p1) =~= varint_bytes(0u32) + after_id);
    lemma_varint_at(data, p1, 0, after_id);
    let p2 = p1 + 1;
    // the protocol version
    let after_version = hf + seq![0x63u8, 0xdd] + seq![1u8];
    assert(data.skip(p2) =~= varint_bytes((-1i32) as u32) + after_version);
    lemma_varint_at(data, p2, -1i32, after_version);
    let p3 = p2 + 5;
    // the server address
    assert(host.len() <= i32::MAX);
    assert(data.skip(p3) =~= hf + (seq![0x63u8, 0xdd] + seq![1u8]));
    lemma_string_frame_at(data, p3, host, seq![0x63u8, 0xdd] + seq![1u8]);
    let p4 = p3 + hf.len();
    // the port, then the next state
    assert(data.len() == p4 + 3);
    assert(data[p4] == 0x63u8 && data[p4 + 1] == 0xddu8) by {
        assert(data[p4] == data.skip(p3)[hf.len() as int]);
        assert(data[p4 + 1] == data.skip(p3)[hf.len() as int + 1]);
    }
    assert(data.skip(p4 + 2) =~= varint_bytes(1u32) + Seq::<u8>::empty());
    lemma_varint_at(data, p4 + 2, 1, Seq::<u8>::empty());
}

/// The two readers of a handshake agree: wherever parsing the bytes as a
/// handshake succeeds, peeking at the same bytes finds the same next state.
pub proof fn lemma_peek_agrees_with_parse(raw: Seq<u8>)
    requires
        spec_parse_handshake(raw) matches Some(Ok(_)),
    ensures
        spec_peek_next_state(raw) == Some(spec_parse_handshake(raw)->0->Ok_0.3),
{
    let (_, p1) = spec_decode_varint(raw, 0);
    let (_, p2) = spec_decode_varint(raw, p1);
    let (_, p3) = spec_decode_varint(raw, p2);
    let (len, p) = spec_decode_varint(raw, p3);
    let (_, p4) = spec_read_string(raw, p3);
    assert(len matches Ok(l) && l >= 0 && p + l <= raw.len() && p4 == p + l);
}

/// The two packets that ask a Minecraft server for its status: the
/// handshake (host = the target's text before its first ':', port 25565,
/// next state 1), then the empty status request. Fails only when a length
/// exceeds `i32::MAX`.
pub fn status_probe(target: &str) -> (r: Result<(Vec<u8>, Vec<u8>), EnderError>)
    ensures
        ({
            let host = host_part(target.spec_bytes());
            if host.len() > i32::MAX || probe_handshake(host).len() > i32::MAX {
                r matches Err(EnderError::PacketParse(m)) && m@ == msg_payload_too_long()
            } else {
                r matches Ok((a, b)) && a@ == mc_frame(probe_handshake(host)) && b@ == seq![1u8, 0u8]
            }
        }),
{
    let host = host_bytes(target);
    let mut handshake = encode_varint(0);
    let version = encode_varint(-1);
    append_bytes(&mut handshake, version.as_slice());
    let host_frame = match encode_mc_packet(host) {
        Ok(p) => p,
        Err(e) => return Err(e),
    };
    append_bytes(&mut handshake, host_frame.as_slice());
    let port: Vec<u8> = vec![0x63, 0xdd];
    append_bytes(&mut handshake, port.as_slice());
    let next = encode_varint(1);
    append_bytes(&mut handshake, next.as_slice());
    proof {
        lemma_varint_small(0);
        lemma_varint_small(1);
    }
    assert(((-1i32) as u32) == 0xffff_ffffu32) by (bit_vector);
    assert(handshake@ =~= probe_handshake(host@));
    let first = match encode_mc_packet(handshake.as_slice()) {
        Ok(p) => p,
        Err(e) => return Err(e),
    };
    let request = encode_varint(0);
    let second = match encode_mc_packet(request.as_slice()) {
        Ok(p) => p,
        Err(e) => return Err(e),
    };
    assert(second@ =~= seq![1u8, 0u8]) by {
        lemma_varint_small(1);
    }
    Ok((first, second))
}


/// What `serde_json` makes of a status JSON text: when the text parses,
/// `players.online` if it is an unsigned integer that fits `u64` (else
/// `None`); when it does not parse, the display text of the error.
pub uninterp spec fn status_online_field(json: Seq<char>) -> Result<Option<u64>, Seq<char>>;

/// Parses `json` with `serde_json::from_str` into a `serde_json::Value` and
/// reads `players.online` with `Value::as_u64`. Claims that the outcome
/// (the field, or the error's display text) is a function of the text alone,
/// named `status_online_field`; nothing more is stated of the parser.
#[verifier::external_body]
fn parse_status_online(json: &str) -> (r: Result<Option<u64>, String>)
    ensures
        match r {
            Ok(o) => status_online_field(json@) == Ok::<Option<u64>, Seq<char>>(o),
            Err(m) => status_online_field(json@) == Err::<Option<u64>, Seq<char>>(m@),
        },
{
    match serde_json::from_str::<serde_json::Value>(json) {
        Ok(v) => Ok(v["players"]["online"].as_u64()),
        Err(e) => Err(e.to_string()),
    }
}

/// The player count a status field gives: the number when present and it
/// fits a `usize`, else 0.
pub open spec fn spec_player_count(online: Option<u64>) -> usize {
    match online {
        Some(n) => if n <= usize::MAX { n as usize } else { 0 },
        None => 0,
    }
}

/// The player count is the server's `players.online` itself whenever it fits
/// a `usize` (no truncation: 300 players count as 300), and 0 when the field
/// is missing or too large.
pub proof fn lemma_player_count_is_online(online: Option<u64>)
    ensures
        match online {
            Some(n) => if n <= usize::MAX {
                spec_player_count(online) as int == n as int
            } else {
                spec_player_count(online) == 0
            },
            None => spec_player_count(online) == 0,
        },
{
}

/// Turns the `players.online` field of a status answer into a player
/// count; see `spec_player_count`.
pub fn player_count_from_online(online: Option<u64>) -> (n: usize)
    ensures
        n == spec_player_count(online),
{
    let v: u64 = match online {
        Some(n) => n,
        None => 0,
    };
    if v as u128 <= usize::MAX as u128 {
        v as usize
    } else {
        0
    }
}

/// Reading a status answer (`VarInt` length, `VarInt` packet id, JSON
/// string): the player count, or the message of the first error.
pub open spec fn spec_status_player_count(response: Seq<u8>) -> Result<usize, Seq<char>> {
    let (r1, p1) = spec_decode_varint(response, 0);
    match r1 {
        Err(f) => Err(varint_fault_text(f)),
        Ok(_) => {
            let (r2, p2) = spec_decode_varint(response, p1);
            match r2 {
                Err(f) => Err(varint_fault_text(f)),
                Ok(_) => match spec_read_string(response, p2).0 {
                    Err(m) => Err(m),
                    Ok(json) => match status_online_field(json) {
                        Err(e) => Err("Invalid status JSON: "@ + e),
                        Ok(online) => Ok(spec_player_count(online)),
                    },
                },
            }
        },
    }
}

/// Extracts the online player count from a server's status answer; see
/// `spec_status_player_count`.
pub fn player_count_from_status(response: &[u8]) -> (r: Result<usize, EnderError>)
    ensures
        match spec_status_player_count(response@) {
            Ok(n) => r == Ok::<usize, EnderError>(n),
            Err(msg) => r matches Err(EnderError::PacketParse(m)) && m@ == msg,
        },
{
    let mut offset: usize = 0;
    if let Err(e) = decode_varint(response, &mut offset) {
        return Err(e);
    }
    if let Err(e) = decode_varint(response, &mut offset) {
        return Err(e);
    }
    let json = match decode_string(response, &mut offset) {
        Ok(s) => s,
        Err(e) => return Err(e),
    };
    match parse_status_online(json.as_str()) {
        Ok(online) => Ok(player_count_from_online(online)),
        Err(detail) => {
            let mut msg = "Invalid status JSON: ".to_owned();
            msg.append(detail.as_str());
            Err(EnderError::PacketParse(msg))
        },
    }
}

/// The proxy's offline status answer reads back: given the frame built for
/// a JSON text, the status reader finds that text again, so the player
/// count it reports is the one that JSON carries.
pub proof fn lemma_offline_answer_reads_back(json: Seq<char>)
    requires
        spec_offline_frame(encode_utf8(json)) is Some,
    ensures
        spec_status_player_count(spec_offline_frame(encode_utf8(json))->0) == match status_online_field(json) {
            Err(e) => Err::<usize, Seq<char>>("Invalid status JSON: "@ + e),
            Ok(online) => Ok::<usize, Seq<char>>(spec_player_count(online)),
        },
{
    let bytes = encode_utf8(json);
    let inner = mc_frame(bytes);
    let packet = seq![0u8] + inner;
    let f = mc_frame(packet);
    // the packet length
    let lv = packet.len() as u32;
    assert(lv == packet.len());
    assert(lv <= 0x7fff_ffffu32 ==> (lv as i32) as u32 == lv) by (bit_vector);
    assert(f.skip(0) =~= varint_bytes((lv as i32) as u32) + packet);
    lemma_varint_at(f, 0, lv as i32, packet);
    let p1 = varint_bytes(lv).len() as int;
    // the packet id
    lemma_varint_small(0);
    assert(f.skip(p1) =~= varint_bytes((0i32) as u32) + inner);
    lemma_varint_at(f, p1, 0i32, inner);
    // the JSON string
    assert(f.skip(p1 + 1) =~= mc_frame(bytes) + Seq::<u8>::empty());
    encode_utf8_valid_utf8(json);
    encode_utf8_decode_utf8(json);
    lemma_string_frame_at(f, p1 + 1, bytes, Seq::<u8>::empty());
}

/// What the inactivity monitor asks for after a poll.
#[derive(Debug, Clone, Copy, PartialEq, Eq)]
pub enum MonitorAction {
    /// Nothing: sleep until the next poll.
    Wait,
    /// The server has been empty long enough: count the players once more.
    FinalCheck,
}

/// The inactivity monitor's decisions: when the server has held at most
/// `min_players` players for `shutdown_timeout_secs`, shut it down.
/// `empty_since` is when the current empty stretch began, in nanoseconds on
/// the caller's monotonic clock.
pub struct InactivityMonitor {
    pub min_players: usize,
    pub shutdown_timeout_secs: u64,
    pub empty_since: Option<u64>,
}

/// Whole seconds from `start` to `now` (zero when `now` is earlier).
pub open spec fn elapsed_secs(start: u64, now: u64) -> int {
    if now >= start { (now - start) / 1_000_000_000 } else { 0 }
}

/// A poll counted as empty: it read a count of at most `min` players.
pub open spec fn poll_empty(min: usize, count: Option<usize>) -> bool {
    count matches Some(c) && c <= min
}

/// One poll of the monitor, from the start of the empty stretch `since`:
/// the stretch after it and the action asked for.
pub open spec fn poll_step(min: usize, timeout: u64, since: Option<u64>, count: Option<usize>, now: u64) -> (
    Option<u64>,
    MonitorAction,
) {
    if poll_empty(min, count) {
        match since {
            Some(start) => (
                Some(start),
                if elapsed_secs(start, now) >= timeout { MonitorAction::FinalCheck } else { MonitorAction::Wait },
            ),
            None => (Some(now), MonitorAction::Wait),
        }
    } else {
        (None, MonitorAction::Wait)
    }
}

/// The final check: the stretch after it and whether to shut down.
pub open spec fn final_step(min: usize, since: Option<u64>, count: Option<usize>) -> (Option<u64>, bool) {
    if poll_empty(min, count) { (None, true) } else { (since, false) }
}

/// Something the monitor is told: a poll's count (`None` when it could not
/// be read) at a time, or the count of a final check.
pub enum MonitorEvent {
    Poll(Option<usize>, u64),
    Final(Option<usize>),
}

/// The start of the empty stretch after a run of events, from a fresh monitor.
pub open spec fn stretch_after(min: usize, timeout: u64, events: Seq<MonitorEvent>) -> Option<u64>
    decreases events.len(),
{
    if events.len() == 0 {
        None
    } else {
        let since = stretch_after(min, timeout, events.drop_last());
        match events.last() {
            MonitorEvent::Poll(count, now) => poll_step(min, timeout, since, count, now).0,
            MonitorEvent::Final(count) => final_step(min, since, count).0,
        }
    }
}

/// One poll in explicit terms: a poll with more than `min` players, or one
/// that failed, ends the stretch and asks for nothing; the first empty poll
/// starts the stretch at its own time; a later empty poll keeps the start
/// and asks for the final check exactly when at least `timeout` whole
/// seconds have passed since it. The final check shuts down exactly when
/// its count is at most `min`, ending the stretch, and otherwise keeps it.
pub proof fn lemma_poll_rule(min: usize, timeout: u64, since: Option<u64>, count: Option<usize>, now: u64)
    ensures
        poll_empty(min, count) <==> (count matches Some(c) && c <= min),
        !poll_empty(min, count) ==> poll_step(min, timeout, since, count, now) == (None::<u64>, MonitorAction::Wait),
        poll_empty(min, count) && since is None ==> poll_step(min, timeout, since, count, now) == (
            Some(now),
            MonitorAction::Wait,
        ),
        match since {
            Some(start) => poll_empty(min, count) ==> poll_step(min, timeout, since, count, now).0 == Some(start) && (
            poll_step(min, timeout, since, count, now).1 == MonitorAction::FinalCheck <==> elapsed_secs(start, now)
                >= timeout),
            None => true,
        },
        final_step(min, since, count).1 <==> (count matches Some(c) && c <= min),
        final_step(min, since, count).1 ==> final_step(min, since, count).0 is None,
        !final_step(min, since, count).1 ==> final_step(min, since, count).0 == since,
{
}

/// The event is no busy or failed poll.
pub open spec fn not_busy(min: usize, e: MonitorEvent) -> bool {
    match e {
        MonitorEvent::Poll(count, _) => poll_empty(min, count),
        MonitorEvent::Final(_) => true,
    }
}

/// The event is an empty poll made at `start`.
pub open spec fn empty_poll_at(min: usize, e: MonitorEvent, start: u64) -> bool {
    e matches MonitorEvent::Poll(count, t) && poll_empty(min, count) && t == start
}

/// Some poll at `start` was empty and no poll after it was busy or failed.
pub open spec fn empty_since(min: usize, events: Seq<MonitorEvent>, start: u64) -> bool {
    exists|j: int|
        0 <= j < events.len() && empty_poll_at(min, #[trigger] events[j], start) && forall|k: int|
            j < k < events.len() ==> not_busy(min, #[trigger] events[k])
}

/// The inactivity monitor shuts down only after a span of empty polls. From
/// a fresh monitor, after any run of polls and final checks: a stretch that
/// began at `start` began with an empty poll at `start`, and no poll since
/// was busy or failed; a poll asks for the final check only when it is
/// empty too and the stretch has lasted the timeout; and the final check
/// that follows shuts down only when its count is empty as well.
pub proof fn lemma_monitor_shuts_down_after_span(
    min: usize,
    timeout: u64,
    events: Seq<MonitorEvent>,
    count: Option<usize>,
    now: u64,
    final_count: Option<usize>,
)
    ensures
        stretch_after(min, timeout, events) matches Some(start) ==> empty_since(min, events, start),
        poll_step(min, timeout, stretch_after(min, timeout, events), count, now).1 == MonitorAction::FinalCheck ==> (
        stretch_after(min, timeout, events) matches Some(start) && empty_since(min, events, start)
            && elapsed_secs(start, now) >= timeout && poll_empty(min, count)),
        ({
            let (since, action) = poll_step(min, timeout, stretch_after(min, timeout, events), count, now);
            action == MonitorAction::FinalCheck && final_step(min, since, final_count).1 ==> poll_empty(
                min,
                final_count,
            )
        }),
{
    lemma_stretch_witnessed(min, timeout, events);
}

proof fn lemma_stretch_witnessed(min: usize, timeout: u64, events: Seq<MonitorEvent>)
    ensures
        stretch_after(min, timeout, events) matches Some(start) ==> empty_since(min, events, start),
    decreases events.len(),
{
    if events.len() > 0 {
        let prefix = events.drop_last();
        lemma_stretch_witnessed(min, timeout, prefix);
        let since = stretch_after(min, timeout, prefix);
        let n = events.len() - 1;
        assert(events.last() == events[n]);
        if let Some(start) = stretch_after(min, timeout, events) {
            if since == Some(start) && not_busy(min, events[n]) {
                let j = choose|j: int|
                    0 <= j < prefix.len() && empty_poll_at(min, #[trigger] prefix[j], start) && forall|k: int|
                        j < k < prefix.len() ==> not_busy(min, #[trigger] prefix[k]);
                assert(events[j] == prefix[j]);
                assert forall|k: int| j < k < events.len() implies not_busy(min, #[trigger] events[k]) by {
                    if k < n {
                        assert(events[k] == prefix[k]);
                    }
                }
            } else {
                assert(empty_poll_at(min, events[n], start));
            }
        }
    }
}

/// The monitor's state is the one a fresh monitor reaches through `events`.
pub open spec fn tracks(m: InactivityMonitor, events: Seq<MonitorEvent>) -> bool {
    m.empty_since == stretch_after(m.min_players, m.shutdown_timeout_secs, events)
}

/// `elapsed_secs` counts whole seconds: from `start` to a later `now` it is
/// the number of full 1_000_000_000 ns periods between them.
pub proof fn lemma_elapsed_whole_seconds(start: u64, now: u64)
    ensures
        now >= start ==> elapsed_secs(start, now) * 1_000_000_000 <= now - start < (elapsed_secs(start, now) + 1)
            * 1_000_000_000,
        now < start ==> elapsed_secs(start, now) == 0,
{
    if now >= start {
        let d = (now - start) as int;
        assert((d / 1_000_000_000) * 1_000_000_000 <= d < (d / 1_000_000_000 + 1) * 1_000_000_000) by (nonlinear_arith)
            requires
                d >= 0,
        ;
    }
}

impl InactivityMonitor {
    /// A monitor that has seen no empty poll yet.
    pub fn new(min_players: usize, shutdown_timeout_secs: u64) -> (m: Self)
        ensures
            m.min_players == min_players,
            m.shutdown_timeout_secs == shutdown_timeout_secs,
            m.empty_since is None,
            tracks(m, Seq::empty()),
    {
        InactivityMonitor { min_players, shutdown_timeout_secs, empty_since: None }
    }

    /// Takes one poll's player count (`None` when it could not be read) at
    /// time `now`. A failed or busy poll ends the empty stretch; the first
    /// empty poll starts one; an empty poll once the stretch has lasted the
    /// timeout asks for the final check and leaves the stretch as it is.
    /// Over a whole history: a monitor that has followed `events` follows
    /// them with this poll appended, and it asks for the final check only
    /// when an empty poll began the stretch, no poll since was busy or
    /// failed, this poll is empty too and the stretch has lasted the timeout.
    pub fn on_count(&mut self, count: Option<usize>, now: u64) -> (a: MonitorAction)
        ensures
            forall|events: Seq<MonitorEvent>| #[trigger] tracks(*old(self), events) ==> tracks(
                *final(self),
                events.push(MonitorEvent::Poll(count, now)),
            ),
            forall|events: Seq<MonitorEvent>| #[trigger] tracks(*old(self), events) && a == MonitorAction::FinalCheck
                ==> (old(self).empty_since matches Some(start) && empty_since(old(self).min_players, events, start)
                && elapsed_secs(start, now) >= old(self).shutdown_timeout_secs && poll_empty(
                old(self).min_players,
                count,
            )),
            (final(self).empty_since, a) == poll_step(
                old(self).min_players,
                old(self).shutdown_timeout_secs,
                old(self).empty_since,
                count,
                now,
            ),
            final(self).min_players == old(self).min_players,
            final(self).shutdown_timeout_secs == old(self).shutdown_timeout_secs,
            match count {
                Some(c) if c <= old(self).min_players => match old(self).empty_since {
                    Some(start) => final(self).empty_since == Some(start) && a == if elapsed_secs(start, now) >= old(
                        self,
                    ).shutdown_timeout_secs {
                        MonitorAction::FinalCheck
                    } else {
                        MonitorAction::Wait
                    },
                    None => final(self).empty_since == Some(now) && a == MonitorAction::Wait,
                },
                _ => final(self).empty_since is None && a == MonitorAction::Wait,
            },
    {
        let ghost before = *self;
        proof {
            assert forall|events: Seq<MonitorEvent>| #[trigger] tracks(before, events) implies (
                before.empty_since matches Some(start) && empty_since(before.min_players, events, start)
            ) || before.empty_since is None by {
                lemma_monitor_shuts_down_after_span(
                    before.min_players,
                    before.shutdown_timeout_secs,
                    events,
                    count,
                    now,
                    None,
                );
            }
        }
        let a = self.on_count_step(count, now);
        proof {
            assert forall|events: Seq<MonitorEvent>| #[trigger] tracks(before, events) implies tracks(
                *self,
                events.push(MonitorEvent::Poll(count, now)),
            ) by {
                assert(events.push(MonitorEvent::Poll(count, now)).drop_last() =~= events);
            }
        }
        a
    }

    fn on_count_step(&mut self, count: Option<usize>, now: u64) -> (a: MonitorAction)
        ensures
            (final(self).empty_since, a) == poll_step(
                old(self).min_players,
                old(self).shutdown_timeout_secs,
                old(self).empty_since,
                count,
                now,
            ),
            final(self).min_players == old(self).min_players,
            final(self).shutdown_timeout_secs == old(self).shutdown_timeout_secs,
    {
        match count {
            Some(c) => {
                if c <= self.min_players {
                    match self.empty_since {
                        Some(start) => {
                            let elapsed: u64 = if now >= start { (now - start) / 1_000_000_000 } else { 0 };
                            if elapsed >= self.shutdown_timeout_secs {
                                MonitorAction::FinalCheck
                            } else {
                                MonitorAction::Wait
                            }
                        },
                        None => {
                            self.empty_since = Some(now);
                            MonitorAction::Wait
                        },
                    }
                } else {
                    self.empty_since = None;
                    MonitorAction::Wait
                }
            },
            None => {
                self.empty_since = None;
                MonitorAction::Wait
            },
        }
    }

    /// Takes the final check's count. When it still shows at most
    /// `min_players` players the server is to be shut down (true) and the
    /// stretch ends; otherwise nothing changes. A monitor that has followed
    /// `events` follows them with this final check appended.
    pub fn on_final_count(&mut self, count: Option<usize>) -> (shutdown: bool)
        ensures
            forall|events: Seq<MonitorEvent>| #[trigger] tracks(*old(self), events) ==> tracks(
                *final(self),
                events.push(MonitorEvent::Final(count)),
            ),
            (final(self).empty_since, shutdown) == final_step(old(self).min_players, old(self).empty_since, count),
            final(self).min_players == old(self).min_players,
            final(self).shutdown_timeout_secs == old(self).shutdown_timeout_secs,
            shutdown == (count matches Some(c) && c <= old(self).min_players),
            shutdown ==> final(self).empty_since is None,
            !shutdown ==> final(self).empty_since == old(self).empty_since,
    {
        let ghost before = *self;
        let shutdown = match count {
            Some(c) => {
                if c <= self.min_players {
                    self.empty_since = None;
                    true
                } else {
                    false
                }
            },
            None => false,
        };
        proof {
            assert forall|events: Seq<MonitorEvent>| #[trigger] tracks(before, events) implies tracks(
                *self,
                events.push(MonitorEvent::Final(count)),
            ) by {
                assert(events.push(MonitorEvent::Final(count)).drop_last() =~= events);
            }
        }
        shutdown
    }
}

} // verus!


