use enderpearl::protocols::{
    identify_minecraft_bedrock, identify_minecraft_java, identify_udp_command, is_java_protocol, protocols,
    ProtocolKind, ProtocolMeta,
};
use enderpearl::routing::types::Transport;
use refractium::RefractiumProtocol;

const MAGIC: [u8; 16] = [0x00, 0xff, 0xff, 0x00, 0xfe, 0xfe, 0xfe, 0xfe, 0xfd, 0xfd, 0xfd, 0xfd, 0x12, 0x34, 0x56, 0x78];

#[test]
fn lookup_by_id_and_alias() {
    for name in ["minecraftjava", "minecraft_java", "java", "mcj"] {
        let m = ProtocolMeta::lookup(name).unwrap();
        assert_eq!(m.kind, ProtocolKind::Java);
        assert_eq!(m.id, "minecraftjava");
        assert_eq!(m.config_key, "minecraft_java");
        assert_eq!(m.default_port, "127.0.0.1:25566");
    }
    for name in ["http", "web", "website"] {
        let m = ProtocolMeta::lookup(name).unwrap();
        assert_eq!(m.kind, ProtocolKind::Web);
        assert_eq!(m.feature, "web");
        assert!(m.is_enabled);
    }
    assert!(ProtocolMeta::lookup("bedrock").is_none());
    assert!(ProtocolMeta::lookup("JAVA").is_none());
}

#[test]
fn protocol_table_order() {
    let all = protocols();
    assert_eq!(all.len(), 2);
    assert_eq!(all[0].display_name, "Minecraft Java");
    assert_eq!(all[1].display_name, "Web/HTTP");
    assert!(is_java_protocol("mcj"));
    assert!(!is_java_protocol("web"));
}

#[test]
fn kind_display_and_instances() {
    assert_eq!(ProtocolKind::Java.to_string(), "Minecraft Java");
    assert_eq!(ProtocolKind::Web.to_string(), "Web/HTTP");
    let web = ProtocolKind::Web.instantiate(false).unwrap();
    assert_eq!(web.name, refractium::Http.name());
    assert_eq!(web.transport, Transport::Tcp);
    assert!(!web.hooked);
    let java = ProtocolKind::Java.instantiate(true).unwrap();
    assert_eq!(java.name, "minecraft_java");
    assert!(java.hooked);
}

#[test]
fn identify_java_handshake() {
    // length 16, id 0, ..., next state 2 at index 16
    let mut data = vec![16u8, 0x00];
    data.extend_from_slice(&[0xfe, 0x05, 9]);
    data.extend_from_slice(b"localhost");
    data.extend_from_slice(&[0x63, 0xdd, 2]);
    assert_eq!(data.len(), 17);
    assert!(identify_minecraft_java(&data));
    *data.last_mut().unwrap() = 3;
    assert!(!identify_minecraft_java(&data));
    assert!(!identify_minecraft_java(&[5, 0, 0, 0, 0, 1]));
    assert!(!identify_minecraft_java(b"GET / HTTP/1.1\r\n"));
}

#[test]
fn identify_bedrock_datagrams() {
    let mut ping = vec![0x01];
    ping.extend_from_slice(&[0; 8]);
    ping.extend_from_slice(&MAGIC);
    assert!(identify_minecraft_bedrock(&ping));
    let mut request = vec![0x05];
    request.extend_from_slice(&MAGIC);
    assert!(identify_minecraft_bedrock(&request));
    request[3] = 0;
    assert!(!identify_minecraft_bedrock(&request));
    // a ping too short to hold the magic at 9..25
    assert!(!identify_minecraft_bedrock(&ping[..20]));
}

#[test]
fn identify_udp_commands() {
    assert!(identify_udp_command(b"CMD:restart"));
    assert!(identify_udp_command(b"CMD:"));
    assert!(!identify_udp_command(b"CMD"));
    assert!(!identify_udp_command(b"cmd:x"));
}
