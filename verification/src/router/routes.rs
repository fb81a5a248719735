use vstd::prelude::*;
use crate::config::distinct_keys;

verus! {

/// Backends per protocol name, for TCP and for UDP. Each name occurs once
/// per table (`distinct_keys`).
pub struct RouteConfig {
    pub tcp: Vec<(String, Vec<String>)>,
    pub udp: Vec<(String, Vec<String>)>,
}

fn one_target(addr: &str) -> (v: Vec<String>)
    ensures
        v@.len() == 1,
        v@[0]@ == addr@,
{
    let mut v = Vec::new();
    v.push(addr.to_owned());
    v
}

/// The built-in table: over TCP, "minecraftjava" to 127.0.0.1:25566 and
/// "http" to 127.0.0.1:3000; over UDP, "minecraftbedrock" to 127.0.0.1:25566.
pub fn load_routes() -> (c: RouteConfig)
    ensures
        c.tcp@.len() == 2,
        c.tcp@[0].0@ == "minecraftjava"@,
        c.tcp@[0].1@.len() == 1,
        c.tcp@[0].1@[0]@ == "127.0.0.1:25566"@,
        c.tcp@[1].0@ == "http"@,
        c.tcp@[1].1@.len() == 1,
        c.tcp@[1].1@[0]@ == "127.0.0.1:3000"@,
        c.udp@.len() == 1,
        c.udp@[0].0@ == "minecraftbedrock"@,
        c.udp@[0].1@.len() == 1,
        c.udp@[0].1@[0]@ == "127.0.0.1:25566"@,
        distinct_keys(c.tcp@),
        distinct_keys(c.udp@),
{
    let mut tcp: Vec<(String, Vec<String>)> = Vec::new();
    let mut udp: Vec<(String, Vec<String>)> = Vec::new();
    tcp.push(("minecraftjava".to_owned(), one_target("127.0.0.1:25566")));
    tcp.push(("http".to_owned(), one_target("127.0.0.1:3000")));
    udp.push(("minecraftbedrock".to_owned(), one_target("127.0.0.1:25566")));
    proof {
        reveal_strlit("minecraftjava");
        reveal_strlit("http");
        assert("minecraftjava"@.len() != "http"@.len());
    }
    RouteConfig { tcp, udp }
}

} // verus!
