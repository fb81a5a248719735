use enderpearl::config::{
    default_bind, default_check_interval, default_peek_buffer, default_peek_timeout, default_shutdown_timeout,
    default_startup_on, attachment_for, route_name_for_key, Attachment, ServerConfig, TomlConfig, TomlRoute, TomlStartupOn, TomlTarget,
};
use enderpearl::errors::EnderError;
use enderpearl::routing::types::{EnderConfig, EnderRoute, ProtocolInfo, StartupOn, Transport};

fn route(target: TomlTarget) -> TomlRoute {
    TomlRoute {
        forward_to: target,
        startup_cmd: Some("docker start mc".into()),
        startup_on: TomlStartupOn::Ping,
        shutdown_cmd: None,
        shutdown_timeout: 120,
        check_interval: 30,
        min_players: 1,
        startup_webhook: None,
        shutdown_webhook: Some("https://hooks.example/x".into()),
        offline_motd: None,
        offline_message: Some("{\"text\":\"later\"}".into()),
    }
}

fn server() -> ServerConfig {
    ServerConfig { bind: "127.0.0.1".into(), port: 25565, peek_buffer_size: 512, peek_timeout_ms: 1000, debug: true }
}

#[test]
fn defaults() {
    assert_eq!(default_bind(), "0.0.0.0");
    assert_eq!(default_peek_buffer(), 1024);
    assert_eq!(default_peek_timeout(), 3000);
    assert_eq!(default_shutdown_timeout(), 300);
    assert_eq!(default_check_interval(), 60);
    assert_eq!(default_startup_on(), TomlStartupOn::Join);
    let c = EnderConfig::default();
    assert_eq!(c.bind, "0.0.0.0");
    assert_eq!(c.port, 25565);
    assert!(c.upstreams.is_empty());
}

#[test]
fn toml_converts_to_routes() {
    let toml = TomlConfig {
        server: server(),
        upstream: vec![
            ("minecraft_java".into(), route(TomlTarget::Address("127.0.0.1:25566".into()))),
            ("web".into(), route(TomlTarget::Pool(vec!["a:1".into(), "b:2".into()]))),
        ],
    };
    let c = EnderConfig::try_from_toml(toml).unwrap();
    assert_eq!(c.bind, "127.0.0.1");
    assert_eq!(c.peek_buffer_size, 512);
    assert!(c.debug);
    assert_eq!(c.upstreams.len(), 2);
    let java = &c.upstreams[0];
    assert_eq!(java.protocol, ProtocolInfo { name: "minecraft_java".into(), transport: Transport::Tcp, hooked: true });
    assert_eq!(java.targets, vec!["127.0.0.1:25566".to_string()]);
    assert_eq!(java.startup_on, StartupOn::Ping);
    assert_eq!(java.shutdown_timeout_secs, 120);
    assert_eq!(java.check_interval_secs, 30);
    assert_eq!(java.min_players, 1);
    assert_eq!(java.shutdown_webhook.as_deref(), Some("https://hooks.example/x"));
    assert_eq!(c.upstreams[1].protocol.name, "http");
    assert_eq!(c.upstreams[1].targets, vec!["a:1".to_string(), "b:2".to_string()]);
}

#[test]
fn unknown_upstream_is_rejected() {
    let toml = TomlConfig {
        server: server(),
        upstream: vec![
            ("java".into(), route(TomlTarget::Address("x:1".into()))),
            ("gopher".into(), route(TomlTarget::Address("x:2".into()))),
            ("ftp".into(), route(TomlTarget::Address("x:3".into()))),
        ],
    };
    assert_eq!(
        EnderConfig::try_from_toml(toml).err(),
        Some(EnderError::Config("gopher".into(), "unknown protocol".into()))
    );
}

#[test]
fn route_names_for_keys() {
    assert_eq!(route_name_for_key("minecraft_java"), "minecraft_java");
    assert_eq!(route_name_for_key("mcj"), "minecraft_java");
    assert_eq!(route_name_for_key("website"), "http");
    assert_eq!(route_name_for_key("custom"), "custom");
}

#[test]
fn new_route_defaults() {
    let r = EnderRoute::new(ProtocolInfo { name: "x".into(), transport: Transport::Udp, hooked: false }, vec!["h:1".into()]);
    assert_eq!(r.startup_on, StartupOn::Join);
    assert_eq!(r.shutdown_timeout_secs, 300);
    assert_eq!(r.check_interval_secs, 60);
    assert_eq!(r.min_players, 0);
    assert!(r.offline_motd.is_none());
}

#[test]
fn attachments_follow_registered_names() {
    let toml = TomlConfig {
        server: server(),
        upstream: vec![
            ("java".into(), route(TomlTarget::Address("127.0.0.1:25566".into()))),
            ("web".into(), route(TomlTarget::Address("127.0.0.1:8080".into()))),
        ],
    };
    let c = EnderConfig::try_from_toml(toml.clone()).unwrap();
    // The Java key stands for "minecraft_java", under which its route is
    // registered: it gets the shell handler and the offline Java proxy.
    assert_eq!(
        attachment_for("java", &toml.upstream[0].1, &c.upstreams),
        Some(Attachment { route: 0, shell_handler: true, java_proxy: true })
    );
    // The web key stands for "http": the route gets the shell handler only.
    assert_eq!(
        attachment_for("web", &toml.upstream[1].1, &c.upstreams),
        Some(Attachment { route: 1, shell_handler: true, java_proxy: false })
    );
    // Without commands there is nothing to attach to a web route.
    let mut quiet = route(TomlTarget::Address("127.0.0.1:8080".into()));
    quiet.startup_cmd = None;
    assert_eq!(attachment_for("http", &quiet, &c.upstreams), None);
    // A Java route gets the Java proxy, with or without commands.
    let upstreams = vec![
        EnderRoute::new(ProtocolInfo { name: "http".into(), transport: Transport::Tcp, hooked: false }, vec!["h:1".into()]),
        EnderRoute::new(ProtocolInfo { name: "minecraft_java".into(), transport: Transport::Tcp, hooked: false }, vec!["m:1".into()]),
    ];
    assert_eq!(
        attachment_for("mcj", &quiet, &upstreams),
        Some(Attachment { route: 1, shell_handler: false, java_proxy: true })
    );
}
