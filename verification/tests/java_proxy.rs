use enderpearl::errors::EnderError;
use enderpearl::minecraft::java::{
    handshake_parse_panics, offline_response_frame, parse_handshake, player_count_from_online,
    player_count_from_status, status_probe, ConnectionRoute, InactivityMonitor, JavaProxy, MonitorAction,
};
use enderpearl::mc::inspect_handshake_bytes;
use enderpearl::minecraft::varint::encode_mc_packet;
use enderpearl::routing::types::StartupOn;

fn handshake_body(next_state: u8) -> Vec<u8> {
    let mut body = vec![0x00, 0xfe, 0x05, 9];
    body.extend_from_slice(b"localhost");
    body.extend_from_slice(&[0x63, 0xdd, next_state]);
    body
}

#[test]
fn parse_handshake_fields() {
    let raw = encode_mc_packet(&handshake_body(2)).unwrap();
    assert!(!handshake_parse_panics(&raw));
    let h = parse_handshake(&raw).unwrap();
    assert_eq!(h.proto_ver, 766);
    assert_eq!(h.addr, "localhost");
    assert_eq!(h.port, 25565);
    assert_eq!(h.next_state, 2);
    assert_eq!(h.raw, raw);
}

#[test]
fn parse_handshake_wrong_packet_id() {
    let raw = encode_mc_packet(&[0x01, 0x00]).unwrap();
    assert_eq!(
        parse_handshake(&raw).err(),
        Some(EnderError::PacketParse("Expected handshake packet ID 0x00, got 01".into()))
    );
    let raw = encode_mc_packet(&[0x7f, 0x00]).unwrap();
    assert_eq!(
        parse_handshake(&raw).err(),
        Some(EnderError::PacketParse("Expected handshake packet ID 0x00, got 7f".into()))
    );
    let raw = encode_mc_packet(&[0xff, 0xff, 0xff, 0xff, 0x0f]).unwrap();
    assert_eq!(
        parse_handshake(&raw).err(),
        Some(EnderError::PacketParse("Expected handshake packet ID 0x00, got ffffffff".into()))
    );
}

#[test]
fn parse_handshake_missing_port_is_flagged() {
    let mut body = handshake_body(2);
    body.truncate(body.len() - 2);
    let raw = encode_mc_packet(&body).unwrap();
    assert!(handshake_parse_panics(&raw));
}

#[test]
fn parse_handshake_missing_next_state() {
    let mut body = handshake_body(2);
    body.pop();
    let raw = encode_mc_packet(&body).unwrap();
    assert!(!handshake_parse_panics(&raw));
    assert_eq!(
        parse_handshake(&raw).err(),
        Some(EnderError::PacketParse("Unexpected end of data while decoding VarInt".into()))
    );
}

#[test]
fn status_probe_packets() {
    let (handshake, request) = status_probe("example.org:25570").unwrap();
    let mut body = vec![0x00, 0xff, 0xff, 0xff, 0xff, 0x0f, 11];
    body.extend_from_slice(b"example.org");
    body.extend_from_slice(&[0x63, 0xdd, 0x01]);
    assert_eq!(handshake, encode_mc_packet(&body).unwrap());
    assert_eq!(request, vec![1, 0]);
}

#[test]
fn status_probe_parses_back_as_status_handshake() {
    let (handshake, _) = status_probe("mc.local").unwrap();
    let h = parse_handshake(&handshake).unwrap();
    assert_eq!(h.proto_ver, -1);
    assert_eq!(h.addr, "mc.local");
    assert_eq!(h.port, 25565);
    assert_eq!(h.next_state, 1);
}

#[test]
fn peek_and_parse_agree_on_next_state() {
    for state in [1u8, 2, 3] {
        let raw = encode_mc_packet(&handshake_body(state)).unwrap();
        let h = parse_handshake(&raw).unwrap();
        assert_eq!(inspect_handshake_bytes(&raw), h.next_state);
        assert_eq!(h.next_state, state as i32);
    }
    let (probe, _) = status_probe("mc.local").unwrap();
    assert_eq!(inspect_handshake_bytes(&probe), 1);
}

#[test]
fn offline_answer_reads_back_through_status_reader() {
    let json = r#"{"version":{"name":"1.21","protocol":766},"players":{"max":20,"online":7}}"#;
    let frame = offline_response_frame(json).unwrap();
    assert_eq!(player_count_from_status(&frame).unwrap(), 7);
    let frame = offline_response_frame("not json").unwrap();
    assert!(matches!(player_count_from_status(&frame), Err(EnderError::PacketParse(m)) if m.starts_with("Invalid status JSON: ")));
}

#[test]
fn offline_frame_layout() {
    let frame = offline_response_frame("{}").unwrap();
    assert_eq!(frame, vec![4, 0, 2, b'{', b'}']);
}

fn status_answer(json: &str) -> Vec<u8> {
    let mut packet = vec![0u8];
    packet.extend(encode_mc_packet(json.as_bytes()).unwrap());
    encode_mc_packet(&packet).unwrap()
}

#[test]
fn player_count_from_status_answer() {
    let json = r#"{"version":{"name":"1.21","protocol":766},"players":{"max":20,"online":7}}"#;
    assert_eq!(player_count_from_status(&status_answer(json)).unwrap(), 7);
    assert_eq!(player_count_from_status(&status_answer(r#"{"players":{}}"#)).unwrap(), 0);
    assert_eq!(player_count_from_status(&status_answer(r#"{"players":{"online":-3}}"#)).unwrap(), 0);
}

#[test]
fn player_count_invalid_json() {
    match player_count_from_status(&status_answer("not json")) {
        Err(EnderError::PacketParse(m)) => assert!(m.starts_with("Invalid status JSON: ")),
        other => panic!("unexpected {other:?}"),
    }
}

#[test]
fn player_count_from_online_field() {
    assert_eq!(player_count_from_online(Some(12)), 12);
    assert_eq!(player_count_from_online(None), 0);
}

fn proxy(startup_on: StartupOn) -> JavaProxy {
    JavaProxy {
        targets: vec!["127.0.0.1:25566".into()],
        startup_on,
        shutdown_timeout_secs: 300,
        check_interval_secs: 60,
        min_players: 0,
        offline_motd: None,
        offline_message: Some("{\"text\":\"bye\"}".into()),
        startup_webhook: None,
        shutdown_webhook: None,
        debug: false,
    }
}

#[test]
fn offline_texts() {
    let p = proxy(StartupOn::Join);
    assert!(p.status_motd().contains("\"protocol\":766"));
    assert_eq!(p.disconnect_text(), "{\"text\":\"bye\"}");
}

#[test]
fn connection_routes_and_wakes() {
    assert_eq!(JavaProxy::route_for(1), ConnectionRoute::Status);
    assert_eq!(JavaProxy::route_for(2), ConnectionRoute::Login);
    assert_eq!(JavaProxy::route_for(3), ConnectionRoute::Forward);
    assert!(!proxy(StartupOn::Join).wakes_on(ConnectionRoute::Status));
    assert!(proxy(StartupOn::Ping).wakes_on(ConnectionRoute::Status));
    assert!(proxy(StartupOn::Always).wakes_on(ConnectionRoute::Status));
    assert!(proxy(StartupOn::Join).wakes_on(ConnectionRoute::Login));
    assert!(!proxy(StartupOn::Always).wakes_on(ConnectionRoute::Forward));
    assert!(proxy(StartupOn::Join).runs_monitor(true));
    assert!(!proxy(StartupOn::Join).runs_monitor(false));
}

const SEC: u64 = 1_000_000_000;

#[test]
fn monitor_shuts_down_after_timeout() {
    let mut m = InactivityMonitor::new(0, 300);
    assert_eq!(m.on_count(Some(0), 10 * SEC), MonitorAction::Wait);
    assert_eq!(m.empty_since, Some(10 * SEC));
    assert_eq!(m.on_count(Some(0), 309 * SEC), MonitorAction::Wait);
    assert_eq!(m.on_count(Some(0), 310 * SEC), MonitorAction::FinalCheck);
    assert!(m.on_final_count(Some(0)));
    assert_eq!(m.empty_since, None);
}

#[test]
fn monitor_resets_on_players_or_errors() {
    let mut m = InactivityMonitor::new(1, 60);
    m.on_count(Some(1), 0);
    assert_eq!(m.empty_since, Some(0));
    assert_eq!(m.on_count(Some(2), 5 * SEC), MonitorAction::Wait);
    assert_eq!(m.empty_since, None);
    m.on_count(Some(0), 6 * SEC);
    assert_eq!(m.on_count(None, 7 * SEC), MonitorAction::Wait);
    assert_eq!(m.empty_since, None);
}

#[test]
fn monitor_final_check_keeps_stretch_when_busy() {
    let mut m = InactivityMonitor::new(0, 1);
    m.on_count(Some(0), 0);
    assert_eq!(m.on_count(Some(0), 2 * SEC), MonitorAction::FinalCheck);
    assert!(!m.on_final_count(Some(3)));
    assert_eq!(m.empty_since, Some(0));
    assert!(!m.on_final_count(None));
    assert_eq!(m.empty_since, Some(0));
}

#[test]
fn monitor_span_restarts_after_busy_or_failed_poll() {
    let mut m = InactivityMonitor::new(1, 60);
    // empty from 0 s, then a busy poll at 50 s restarts the span
    assert_eq!(m.on_count(Some(1), 0), MonitorAction::Wait);
    assert_eq!(m.on_count(Some(2), 50 * SEC), MonitorAction::Wait);
    assert_eq!(m.on_count(Some(0), 70 * SEC), MonitorAction::Wait);
    assert_eq!(m.empty_since, Some(70 * SEC));
    // a failed poll restarts it too
    assert_eq!(m.on_count(None, 100 * SEC), MonitorAction::Wait);
    assert_eq!(m.on_count(Some(0), 120 * SEC), MonitorAction::Wait);
    assert_eq!(m.on_count(Some(1), 179 * SEC), MonitorAction::Wait);
    assert_eq!(m.on_count(Some(1), 180 * SEC), MonitorAction::FinalCheck);
    // a busy final check keeps the span; the next empty one shuts down
    assert!(!m.on_final_count(Some(5)));
    assert_eq!(m.empty_since, Some(120 * SEC));
    assert_eq!(m.on_count(Some(0), 240 * SEC), MonitorAction::FinalCheck);
    assert!(m.on_final_count(Some(0)));
}
