use enderpearl::router::routes::load_routes;
use enderpearl::routing::routes::{map_to_refractium, ForwardTarget, PlannedRoute};
use enderpearl::routing::types::{find_route, EnderConfig, EnderRoute, ProtocolInfo, Transport};

fn info(name: &str, transport: Transport) -> ProtocolInfo {
    ProtocolInfo { name: name.into(), transport, hooked: false }
}

fn config() -> EnderConfig {
    let mut c = EnderConfig::default();
    c.upstreams = vec![
        EnderRoute::new(info("minecraft_java", Transport::Tcp), vec!["127.0.0.1:25566".into()]),
        EnderRoute::new(info("dns", Transport::Udp), vec!["a:53".into(), "b:53".into()]),
        EnderRoute::new(info("both", Transport::Both), vec![]),
    ];
    c
}

#[test]
fn routes_split_by_transport() {
    let plan = map_to_refractium(&config(), &vec![]).unwrap();
    assert_eq!(
        plan.tcp,
        vec![
            PlannedRoute { route: 0, forward_to: ForwardTarget::Single("127.0.0.1:25566".into()) },
            PlannedRoute { route: 2, forward_to: ForwardTarget::Multiple(vec![]) },
        ]
    );
    assert_eq!(
        plan.udp,
        vec![
            PlannedRoute { route: 1, forward_to: ForwardTarget::Multiple(vec!["a:53".into(), "b:53".into()]) },
            PlannedRoute { route: 2, forward_to: ForwardTarget::Multiple(vec![]) },
        ]
    );
}

#[test]
fn proxy_port_redirects_route() {
    let plan = map_to_refractium(&config(), &vec![("minecraft_java".into(), 41234)]).unwrap();
    assert_eq!(plan.tcp[0].forward_to, ForwardTarget::Single("127.0.0.1:41234".into()));
    let plan = map_to_refractium(&config(), &vec![("dns".into(), 7)]).unwrap();
    assert_eq!(plan.udp[0].forward_to, ForwardTarget::Single("127.0.0.1:7".into()));
}

#[test]
fn find_route_by_name() {
    let c = config();
    assert_eq!(find_route(&c.upstreams, "dns"), Some(1));
    assert_eq!(find_route(&c.upstreams, "minecraftjava"), None);
}

#[test]
fn built_in_route_table() {
    let r = load_routes();
    assert_eq!(r.tcp.len(), 2);
    assert_eq!(r.tcp[0], ("minecraftjava".to_string(), vec!["127.0.0.1:25566".to_string()]));
    assert_eq!(r.tcp[1], ("http".to_string(), vec!["127.0.0.1:3000".to_string()]));
    assert_eq!(r.udp, vec![("minecraftbedrock".to_string(), vec!["127.0.0.1:25566".to_string()])]);
}

#[test]
fn proxy_port_text_edges() {
    for (port, text) in [(0u16, "127.0.0.1:0"), (10, "127.0.0.1:10"), (65535, "127.0.0.1:65535")] {
        let plan = map_to_refractium(&config(), &vec![("minecraft_java".into(), port)]).unwrap();
        assert_eq!(plan.tcp[0].forward_to, ForwardTarget::Single(text.into()));
    }
}
