//! The protocols enderpearl knows: their names, their detectors and their
//! configuration metadata.

use vstd::prelude::*;
use crate::routing::types::{ProtocolInfo, Transport};
use crate::text::str_eq;

verus! {

/// A protocol enderpearl can route.
#[derive(Debug, Clone, Copy, PartialEq, Eq)]
pub enum ProtocolKind {
    Java,
    Web,
}

/// The human-readable name of a protocol kind.
pub open spec fn kind_label(k: ProtocolKind) -> Seq<char> {
    match k {
        ProtocolKind::Java => "Minecraft Java"@,
        ProtocolKind::Web => "Web/HTTP"@,
    }
}

/// The name under which a protocol's detector registers.
pub open spec fn kind_protocol_name(k: ProtocolKind) -> Seq<char> {
    match k {
        ProtocolKind::Java => "minecraft_java"@,
        ProtocolKind::Web => "http"@,
    }
}

impl ProtocolKind {
    /// The human-readable name: "Minecraft Java" or "Web/HTTP".
    pub fn to_string(&self) -> (s: String)
        ensures
            s@ == kind_label(*self),
    {
        match self {
            ProtocolKind::Java => "Minecraft Java".to_owned(),
            ProtocolKind::Web => "Web/HTTP".to_owned(),
        }
    }

    /// The detector for this kind, when its feature is compiled in (both
    /// are): Minecraft Java registers as "minecraft_java" over TCP, HTTP as
    /// "http" over TCP. With `debug`, and only then, the detector is wrapped
    /// in the packet-logging hook, which keeps its name and transport.
    pub fn instantiate(self, debug: bool) -> (r: Option<ProtocolInfo>)
        ensures
            r matches Some(info) && info.name@ == kind_protocol_name(self) && info.transport == Transport::Tcp
                && info.hooked == debug,
    {
        match self {
            ProtocolKind::Java => Some(ProtocolInfo { name: "minecraft_java".to_owned(), transport: Transport::Tcp, hooked: debug }),
            ProtocolKind::Web => Some(ProtocolInfo { name: "http".to_owned(), transport: Transport::Tcp, hooked: debug }),
        }
    }
}

/// Configuration metadata of a protocol.
#[derive(Debug, Clone)]
pub struct ProtocolMeta {
    pub kind: ProtocolKind,
    pub id: &'static str,
    pub aliases: Vec<&'static str>,
    pub feature: &'static str,
    pub is_enabled: bool,
    pub display_name: &'static str,
    pub config_key: &'static str,
    pub default_port: &'static str,
}

/// The names by which the Minecraft Java protocol is known: its id, then its aliases.
pub open spec fn java_names() -> Seq<Seq<char>> {
    seq!["minecraftjava"@, "minecraft_java"@, "java"@, "mcj"@]
}

/// The names by which the web protocol is known: its id, then its aliases.
pub open spec fn web_names() -> Seq<Seq<char>> {
    seq!["http"@, "web"@, "http"@, "website"@]
}

/// The names a kind's metadata answers to.
pub open spec fn kind_names(k: ProtocolKind) -> Seq<Seq<char>> {
    match k {
        ProtocolKind::Java => java_names(),
        ProtocolKind::Web => web_names(),
    }
}

impl ProtocolMeta {
    /// The names this metadata answers to: its id, then its aliases.
    pub open spec fn names(&self) -> Seq<Seq<char>> {
        seq![self.id@] + self.aliases@.map_values(|a: &'static str| a@)
    }

    /// The metadata of a kind, field by field.
    pub open spec fn describes(&self, k: ProtocolKind) -> bool {
        &&& self.kind == k
        &&& self.names() == kind_names(k)
        &&& self.is_enabled
        &&& match k {
            ProtocolKind::Java => {
                &&& self.feature@ == "java"@
                &&& self.display_name@ == "Minecraft Java"@
                &&& self.config_key@ == "minecraft_java"@
                &&& self.default_port@ == "127.0.0.1:25566"@
            },
            ProtocolKind::Web => {
                &&& self.feature@ == "web"@
                &&& self.display_name@ == "Web/HTTP"@
                &&& self.config_key@ == "web"@
                &&& self.default_port@ == "127.0.0.1:8080"@
            },
        }
    }

    /// The metadata of the Minecraft Java protocol.
    pub fn java() -> (m: Self)
        ensures
            m.describes(ProtocolKind::Java),
    {
        let m = ProtocolMeta {
            kind: ProtocolKind::Java,
            id: "minecraftjava",
            aliases: vec!["minecraft_java", "java", "mcj"],
            feature: "java",
            is_enabled: true,
            display_name: "Minecraft Java",
            config_key: "minecraft_java",
            default_port: "127.0.0.1:25566",
        };
        assert(m.names() =~= java_names());
        m
    }

    /// The metadata of the web (HTTP) protocol.
    pub fn web() -> (m: Self)
        ensures
            m.describes(ProtocolKind::Web),
    {
        let m = ProtocolMeta {
            kind: ProtocolKind::Web,
            id: "http",
            aliases: vec!["web", "http", "website"],
            feature: "web",
            is_enabled: true,
            display_name: "Web/HTTP",
            config_key: "web",
            default_port: "127.0.0.1:8080",
        };
        assert(m.names() =~= web_names());
        m
    }

    /// Whether `name` is this protocol's id or one of its aliases.
    pub fn answers_to(&self, name: &str) -> (b: bool)
        ensures
            b == self.names().contains(name@),
    {
        if str_eq(self.id, name) {
            assert(self.names()[0] == name@);
            return true;
        }
        let mut i: usize = 0;
        while i < self.aliases.len()
            invariant
                i <= self.aliases@.len(),
                self.id@ != name@,
                forall|j: int| 0 <= j < i ==> self.aliases@[j]@ != name@,
            decreases self.aliases@.len() - i,
        {
            if str_eq(self.aliases[i], name) {
                assert(self.names()[i + 1] == name@);
                return true;
            }
            i = i + 1;
        }
        assert forall|j: int| 0 <= j < self.names().len() implies self.names()[j] != name@ by {
            if j > 0 {
                assert(self.names()[j] == self.aliases@[j - 1]@);
            }
        }
        false
    }

    /// Finds the protocol whose id or one of whose aliases is `name`; the
    /// Minecraft Java protocol is tried before the web protocol.
    pub fn lookup(name: &str) -> (r: Option<Self>)
        ensures
            java_names().contains(name@) ==> (r matches Some(m) && m.describes(ProtocolKind::Java)),
            !java_names().contains(name@) && web_names().contains(name@)
                ==> (r matches Some(m) && m.describes(ProtocolKind::Web)),
            !java_names().contains(name@) && !web_names().contains(name@) ==> r is None,
    {
        let java = ProtocolMeta::java();
        if java.answers_to(name) {
            return Some(java);
        }
        let web = ProtocolMeta::web();
        if web.answers_to(name) {
            return Some(web);
        }
        None
    }
}

/// Whether `name` names the Minecraft Java protocol (its id or an alias).
pub fn is_java_protocol(name: &str) -> (b: bool)
    ensures
        b == java_names().contains(name@),
{
    ProtocolMeta::java().answers_to(name)
}

/// All protocols, in lookup order.
pub fn protocols() -> (r: Vec<ProtocolMeta>)
    ensures
        r@.len() == 2,
        r@[0].describes(ProtocolKind::Java),
        r@[1].describes(ProtocolKind::Web),
{
    let mut r = Vec::new();
    r.push(ProtocolMeta::java());
    r.push(ProtocolMeta::web());
    r
}


/// The RakNet offline-message magic that Bedrock's unconnected packets carry.
pub open spec fn raknet_magic() -> Seq<u8> {
    seq![0x00u8, 0xff, 0xff, 0x00, 0xfe, 0xfe, 0xfe, 0xfe, 0xfd, 0xfd, 0xfd, 0xfd, 0x12, 0x34, 0x56, 0x78]
}

/// A Minecraft Java handshake opening: at least 7 bytes, a one-byte length
/// of at least 5, packet id 0, and the byte at the length's position (the
/// last byte of the packet, its next state) being 1 or 2.
pub open spec fn spec_identify_minecraft_java(d: Seq<u8>) -> bool {
    &&& d.len() >= 7
    &&& d[1] == 0
    &&& d[0] >= 5
    &&& d.len() > d[0]
    &&& (d[d[0] as int] == 1 || d[d[0] as int] == 2)
}

/// A Minecraft Bedrock (RakNet) datagram: at least 17 bytes, and either an
/// unconnected ping/pong (id 1 or 2) with the magic at bytes 9..25, or an
/// open-connection request (id 5 or 7) with the magic at bytes 1..17.
pub open spec fn spec_identify_minecraft_bedrock(d: Seq<u8>) -> bool {
    &&& d.len() >= 17
    &&& {
        ||| (d[0] == 1 || d[0] == 2) && d.len() >= 25 && d.subrange(9, 25) == raknet_magic()
        ||| (d[0] == 5 || d[0] == 7) && d.subrange(1, 17) == raknet_magic()
    }
}

/// A UDP command datagram: it starts with "CMD:".
pub open spec fn spec_identify_udp_command(d: Seq<u8>) -> bool {
    d.len() >= 4 && d.subrange(0, 4) == seq![0x43u8, 0x4d, 0x44, 0x3a]
}

/// Whether `data` holds `expected` at `start`.
fn bytes_at(data: &[u8], start: usize, expected: &[u8]) -> (b: bool)
    requires
        start + expected@.len() <= data@.len(),
    ensures
        b == (data@.subrange(start as int, start + expected@.len()) == expected@),
{
    let mut i: usize = 0;
    while i < expected.len()
        invariant
            start + expected@.len() <= data@.len(),
            i <= expected@.len(),
            forall|j: int| 0 <= j < i ==> data@[start + j] == expected@[j],
        decreases expected@.len() - i,
    {
        assert(start + i < data@.len() && data@.len() == data.len());
        if data[start + i] != expected[i] {
            assert(data@.subrange(start as int, start + expected@.len())[i as int] != expected@[i as int]);
            return false;
        }
        i = i + 1;
    }
    assert(data@.subrange(start as int, start + expected@.len()) =~= expected@);
    true
}

/// Detects the opening of a Minecraft Java connection (see
/// `spec_identify_minecraft_java`).
pub fn identify_minecraft_java(data: &[u8]) -> (b: bool)
    ensures
        b == spec_identify_minecraft_java(data@),
{
    if data.len() < 7 {
        return false;
    }
    let packet_len = data[0] as usize;
    if data[1] == 0 && packet_len >= 5 && data.len() > packet_len {
        data[packet_len] == 1 || data[packet_len] == 2
    } else {
        false
    }
}

/// Detects a Minecraft Bedrock (RakNet) datagram (see
/// `spec_identify_minecraft_bedrock`).
pub fn identify_minecraft_bedrock(data: &[u8]) -> (b: bool)
    ensures
        b == spec_identify_minecraft_bedrock(data@),
{
    if data.len() < 17 {
        return false;
    }
    let magic: Vec<u8> = vec![0x00, 0xff, 0xff, 0x00, 0xfe, 0xfe, 0xfe, 0xfe, 0xfd, 0xfd, 0xfd, 0xfd, 0x12, 0x34, 0x56, 0x78];
    assert(magic@ =~= raknet_magic());
    let id = data[0];
    if id == 1 || id == 2 {
        data.len() >= 25 && bytes_at(data, 9, magic.as_slice())
    } else if id == 5 || id == 7 {
        bytes_at(data, 1, magic.as_slice())
    } else {
        false
    }
}

/// Detects a UDP command datagram: one that starts with "CMD:".
pub fn identify_udp_command(data: &[u8]) -> (b: bool)
    ensures
        b == spec_identify_udp_command(data@),
{
    let prefix: Vec<u8> = vec![0x43, 0x4d, 0x44, 0x3a];
    assert(prefix@ =~= seq![0x43u8, 0x4d, 0x44, 0x3a]);
    data.len() >= 4 && bytes_at(data, 0, prefix.as_slice())
}


/// The Minecraft Java detector accepts exactly the openings of a status
/// ping (next state 1) and of a login (next state 2): at least 7 bytes, a
/// one-byte packet length of at least 5 that stays inside the data, packet
/// id 0, and next state 1 or 2 at the length's position.
pub proof fn lemma_java_detector_accepts_ping_and_login(d: Seq<u8>)
    ensures
        spec_identify_minecraft_java(d) <==> (d.len() >= 7 && d[1] == 0u8 && 5 <= d[0] && (d[0] as int) < d.len() && (
        d[d[0] as int] == 1u8 || d[d[0] as int] == 2u8)),
        d.len() >= 7 && d[1] == 0u8 && 5 <= d[0] && (d[0] as int) < d.len() ==> (spec_identify_minecraft_java(
            d.update(d[0] as int, 1u8),
        ) && spec_identify_minecraft_java(d.update(d[0] as int, 2u8))),
{
    if d.len() >= 7 && d[1] == 0u8 && 5 <= d[0] && (d[0] as int) < d.len() {
        let k = d[0] as int;
        assert(d.update(k, 1u8)[0] == d[0]);
        assert(d.update(k, 1u8)[1] == d[1]);
        assert(d.update(k, 2u8)[0] == d[0]);
        assert(d.update(k, 2u8)[1] == d[1]);
    }
}

/// The RakNet magic is the sixteen bytes 00 ff ff 00 fe fe fe fe fd fd fd
/// fd 12 34 56 78, and the Bedrock detector accepts exactly datagrams of at
/// least 17 bytes that are an unconnected ping or pong (id 1 or 2) with the
/// magic at bytes 9 to 24, or an open-connection request (id 5 or 7) with
/// the magic at bytes 1 to 16.
pub proof fn lemma_bedrock_detector(d: Seq<u8>)
    ensures
        raknet_magic() =~= seq![0x00u8, 0xffu8, 0xffu8, 0x00u8, 0xfeu8, 0xfeu8, 0xfeu8, 0xfeu8, 0xfdu8, 0xfdu8, 0xfdu8, 0xfdu8, 0x12u8, 0x34u8, 0x56u8, 0x78u8],
        spec_identify_minecraft_bedrock(d) <==> (d.len() >= 17 && (((d[0] == 1u8 || d[0] == 2u8) && d.len() >= 25
            && d.subrange(9, 25) == raknet_magic()) || ((d[0] == 5u8 || d[0] == 7u8) && d.subrange(1, 17)
            == raknet_magic()))),
{
}

/// The command detector accepts exactly the datagrams that start with the
/// four bytes "CMD:" (0x43 0x4d 0x44 0x3a).
pub proof fn lemma_udp_command_detector(d: Seq<u8>)
    ensures
        spec_identify_udp_command(d) <==> (d.len() >= 4 && d[0] == 0x43u8 && d[1] == 0x4du8 && d[2] == 0x44u8
            && d[3] == 0x3au8),
{
    if d.len() >= 4 && d[0] == 0x43u8 && d[1] == 0x4du8 && d[2] == 0x44u8 && d[3] == 0x3au8 {
        assert(d.subrange(0, 4) =~= seq![0x43u8, 0x4d, 0x44, 0x3a]);
    }
    if spec_identify_udp_command(d) {
        assert(d.subrange(0, 4)[0] == d[0]);
        assert(d.subrange(0, 4)[1] == d[1]);
        assert(d.subrange(0, 4)[2] == d[2]);
        assert(d.subrange(0, 4)[3] == d[3]);
    }
}

} // verus!
