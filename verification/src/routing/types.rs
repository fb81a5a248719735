use vstd::prelude::*;
use crate::text::str_eq;

verus! {

/// When an offline backend is woken.
#[derive(Debug, Clone, Copy, PartialEq, Eq)]
pub enum StartupOn {
    /// When a player joins.
    Join,
    /// When a client pings (status) or joins.
    Ping,
    /// On any status or join request.
    Always,
}

/// The transport a protocol runs over.
#[derive(Debug, Clone, Copy, PartialEq, Eq)]
pub enum Transport {
    Tcp,
    Udp,
    Both,
}

/// What the library needs to know of a route's protocol detector: the name
/// it registers under, its transport, and whether it is wrapped in the
/// packet-logging debug hook.
#[derive(Debug, Clone, PartialEq, Eq)]
pub struct ProtocolInfo {
    pub name: String,
    pub transport: Transport,
    pub hooked: bool,
}

/// One upstream: its protocol, its backends and its lifecycle settings.
#[derive(Debug, Clone, PartialEq, Eq)]
pub struct EnderRoute {
    pub protocol: ProtocolInfo,
    pub targets: Vec<String>,
    pub startup_on: StartupOn,
    pub shutdown_timeout_secs: u64,
    pub check_interval_secs: u64,
    pub min_players: usize,
    pub startup_webhook: Option<String>,
    pub shutdown_webhook: Option<String>,
    pub offline_motd: Option<String>,
    pub offline_message: Option<String>,
}

impl EnderRoute {
    /// A route with default settings: wake on join, shut down after 300 s
    /// idle, check every 60 s, no minimum players, no webhooks or messages.
    pub fn new(protocol: ProtocolInfo, targets: Vec<String>) -> (r: Self)
        ensures
            r.protocol == protocol,
            r.targets == targets,
            r.startup_on == StartupOn::Join,
            r.shutdown_timeout_secs == 300,
            r.check_interval_secs == 60,
            r.min_players == 0,
            r.startup_webhook is None,
            r.shutdown_webhook is None,
            r.offline_motd is None,
            r.offline_message is None,
    {
        EnderRoute {
            protocol,
            targets,
            startup_on: StartupOn::Join,
            shutdown_timeout_secs: 300,
            check_interval_secs: 60,
            min_players: 0,
            startup_webhook: None,
            shutdown_webhook: None,
            offline_motd: None,
            offline_message: None,
        }
    }
}

/// The proxy's configuration.
#[derive(Debug, Clone, PartialEq, Eq)]
pub struct EnderConfig {
    pub bind: String,
    pub port: u16,
    pub peek_buffer_size: usize,
    pub peek_timeout_ms: u64,
    pub upstreams: Vec<EnderRoute>,
    pub debug: bool,
}

impl Default for EnderConfig {
    /// Listen on 0.0.0.0:25565, peek up to 1024 bytes for 3000 ms, no
    /// upstreams, no debug.
    fn default() -> (r: Self)
        ensures
            r.bind@ == "0.0.0.0"@,
            r.port == 25565,
            r.peek_buffer_size == 1024,
            r.peek_timeout_ms == 3000,
            r.upstreams@.len() == 0,
            !r.debug,
    {
        EnderConfig {
            bind: "0.0.0.0".to_owned(),
            port: 25565,
            peek_buffer_size: 1024,
            peek_timeout_ms: 3000,
            upstreams: Vec::new(),
            debug: false,
        }
    }
}


/// The first upstream whose protocol is registered under `name`.
pub fn find_route(upstreams: &Vec<EnderRoute>, name: &str) -> (r: Option<usize>)
    ensures
        r matches Some(i) ==> i < upstreams@.len() && upstreams@[i as int].protocol.name@ == name@
            && forall|j: int| 0 <= j < i ==> upstreams@[j].protocol.name@ != name@,
        r is None ==> forall|j: int| 0 <= j < upstreams@.len() ==> upstreams@[j].protocol.name@ != name@,
{
    let mut i: usize = 0;
    while i < upstreams.len()
        invariant
            i <= upstreams@.len(),
            forall|j: int| 0 <= j < i ==> upstreams@[j].protocol.name@ != name@,
        decreases upstreams@.len() - i,
    {
        if str_eq(upstreams[i].protocol.name.as_str(), name) {
            return Some(i);
        }
        i = i + 1;
    }
    None
}

} // verus!

