//! The TOML configuration file's model and its conversion into `EnderConfig`.

use vstd::prelude::*;
use vstd::string::StringExecFns;
use crate::errors::EnderError;
use crate::protocols::{is_java_protocol, java_names, kind_protocol_name, web_names, ProtocolKind, ProtocolMeta};
use crate::routing::types::{find_route, EnderConfig, EnderRoute, StartupOn, Transport};

verus! {

/// No key occurs twice among the entries, as in a map keyed by name.
pub open spec fn distinct_keys<V>(entries: Seq<(String, V)>) -> bool {
    forall|i: int, j: int|
        0 <= i < entries.len() && 0 <= j < entries.len() && i != j ==> (#[trigger] entries[i]).0@ != (
        #[trigger] entries[j]).0@
}

/// The whole configuration file: the listener, and the upstreams in the
/// order in which the file's table of them is walked. The upstream table is
/// keyed by name, so a name occurs once (`distinct_keys`).
#[derive(Debug, Clone)]
pub struct TomlConfig {
    pub server: ServerConfig,
    pub upstream: Vec<(String, TomlRoute)>,
}

/// The `[server]` table.
#[derive(Debug, Clone)]
pub struct ServerConfig {
    pub bind: String,
    pub port: u16,
    pub peek_buffer_size: usize,
    pub peek_timeout_ms: u64,
    pub debug: bool,
}

/// One `[upstream.<protocol>]` table.
#[derive(Debug, Clone)]
pub struct TomlRoute {
    pub forward_to: TomlTarget,
    pub startup_cmd: Option<String>,
    pub startup_on: TomlStartupOn,
    pub shutdown_cmd: Option<String>,
    pub shutdown_timeout: u64,
    pub check_interval: u64,
    pub min_players: usize,
    pub startup_webhook: Option<String>,
    pub shutdown_webhook: Option<String>,
    pub offline_motd: Option<String>,
    pub offline_message: Option<String>,
}

/// `startup_on` as written in the file.
#[derive(Debug, Clone, Copy, PartialEq, Eq)]
pub enum TomlStartupOn {
    Join,
    Ping,
    Always,
}

/// `forward_to`: one address or a pool of them.
#[derive(Debug, Clone)]
pub enum TomlTarget {
    Address(String),
    Pool(Vec<String>),
}

/// Default `startup_on`: join.
pub fn default_startup_on() -> (r: TomlStartupOn)
    ensures
        r == TomlStartupOn::Join,
{
    TomlStartupOn::Join
}

/// Default bind address: "0.0.0.0".
pub fn default_bind() -> (r: String)
    ensures
        r@ == "0.0.0.0"@,
{
    "0.0.0.0".to_owned()
}

/// Default peek buffer: 1024 bytes.
pub fn default_peek_buffer() -> (r: usize)
    ensures
        r == 1024,
{
    1024
}

/// Default peek timeout: 3000 ms.
pub fn default_peek_timeout() -> (r: u64)
    ensures
        r == 3000,
{
    3000
}

/// Default idle time before shutdown: 300 s.
pub fn default_shutdown_timeout() -> (r: u64)
    ensures
        r == 300,
{
    300
}

/// Default interval between player-count checks: 60 s.
pub fn default_check_interval() -> (r: u64)
    ensures
        r == 60,
{
    60
}

/// The backends a `forward_to` names.
pub open spec fn target_list(t: TomlTarget) -> Seq<String> {
    match t {
        TomlTarget::Address(s) => seq![s],
        TomlTarget::Pool(v) => v@,
    }
}

/// The `StartupOn` a file value stands for.
pub open spec fn startup_on_of(s: TomlStartupOn) -> StartupOn {
    match s {
        TomlStartupOn::Join => StartupOn::Join,
        TomlStartupOn::Ping => StartupOn::Ping,
        TomlStartupOn::Always => StartupOn::Always,
    }
}

/// The protocol kind an upstream's name selects, if any.
pub open spec fn kind_for_name(name: Seq<char>) -> Option<ProtocolKind> {
    if java_names().contains(name) {
        Some(ProtocolKind::Java)
    } else if web_names().contains(name) {
        Some(ProtocolKind::Web)
    } else {
        None
    }
}

/// `r` is the route built from the upstream table `t` of protocol `kind`,
/// its detector hooked for logging exactly when `debug` is set.
pub open spec fn route_from_toml(r: EnderRoute, kind: ProtocolKind, t: TomlRoute, debug: bool) -> bool {
    &&& r.protocol.name@ == kind_protocol_name(kind)
    &&& r.protocol.transport == Transport::Tcp
    &&& r.protocol.hooked == debug
    &&& r.targets@ == target_list(t.forward_to)
    &&& r.startup_on == startup_on_of(t.startup_on)
    &&& r.shutdown_timeout_secs == t.shutdown_timeout
    &&& r.check_interval_secs == t.check_interval
    &&& r.min_players == t.min_players
    &&& r.startup_webhook == t.startup_webhook
    &&& r.shutdown_webhook == t.shutdown_webhook
    &&& r.offline_motd == t.offline_motd
    &&& r.offline_message == t.offline_message
}

/// How a file's upstream table becomes a route, in explicit terms: each
/// `startup_on` value keeps its meaning (join stays join, ping stays ping,
/// always stays always, so a server set to wake on join is never woken by
/// a ping); a single `forward_to` address is the one target and a pool is
/// its targets in order; the Java names select the Minecraft Java protocol,
/// registered as "minecraft_java", and the web names the web protocol,
/// registered as "http".
pub proof fn lemma_route_fields_keep_their_meaning(t: TomlTarget, name: Seq<char>)
    ensures
        startup_on_of(TomlStartupOn::Join) == StartupOn::Join,
        startup_on_of(TomlStartupOn::Ping) == StartupOn::Ping,
        startup_on_of(TomlStartupOn::Always) == StartupOn::Always,
        match t {
            TomlTarget::Address(a) => target_list(t).len() == 1 && target_list(t)[0] == a,
            TomlTarget::Pool(v) => target_list(t) == v@,
        },
        java_names().contains(name) ==> kind_for_name(name) == Some(ProtocolKind::Java),
        !java_names().contains(name) && web_names().contains(name) ==> kind_for_name(name) == Some(
            ProtocolKind::Web,
        ),
        !java_names().contains(name) && !web_names().contains(name) ==> kind_for_name(name) is None,
        kind_protocol_name(ProtocolKind::Java) == "minecraft_java"@,
        kind_protocol_name(ProtocolKind::Web) == "http"@,
{
}

/// The message of the error for an upstream whose name is no protocol.
pub open spec fn msg_unknown_protocol() -> Seq<char> {
    "unknown protocol"@
}

fn clone_string(s: &String) -> (r: String)
    ensures
        r == *s,
{
    s.clone()
}

fn clone_opt_string(o: &Option<String>) -> (r: Option<String>)
    ensures
        r == *o,
{
    match o {
        Some(s) => Some(clone_string(s)),
        None => None,
    }
}

fn clone_strings(v: &Vec<String>) -> (r: Vec<String>)
    ensures
        r@ == v@,
{
    let mut r: Vec<String> = Vec::new();
    let mut i: usize = 0;
    while i < v.len()
        invariant
            i <= v@.len(),
            r@ == v@.subrange(0, i as int),
        decreases v@.len() - i,
    {
        r.push(clone_string(&v[i]));
        i = i + 1;
        assert(r@ =~= v@.subrange(0, i as int));
    }
    assert(v@.subrange(0, v@.len() as int) =~= v@);
    r
}

fn targets_of(t: &TomlTarget) -> (r: Vec<String>)
    ensures
        r@ == target_list(*t),
{
    match t {
        TomlTarget::Address(s) => {
            let mut v = Vec::new();
            v.push(clone_string(s));
            assert(v@ =~= seq![*s]);
            v
        },
        TomlTarget::Pool(p) => clone_strings(p),
    }
}

/// The protocol name an upstream key stands for: the name under which the
/// detector of the protocol it names registers (as routes built from the
/// file carry it), or the key itself when it names no protocol.
pub open spec fn key_route_name(key: Seq<char>) -> Seq<char> {
    match kind_for_name(key) {
        Some(kind) => kind_protocol_name(kind),
        None => key,
    }
}

/// The protocol name an upstream key is matched against; see
/// `key_route_name`.
pub fn route_name_for_key(key: &str) -> (r: String)
    ensures
        r@ == key_route_name(key@),
{
    match ProtocolMeta::lookup(key) {
        Some(meta) => match meta.kind {
            ProtocolKind::Java => "minecraft_java".to_owned(),
            ProtocolKind::Web => "http".to_owned(),
        },
        None => key.to_owned(),
    }
}

/// Every upstream of the file finds its route: in the routes built from
/// the file, the route of an upstream is registered under the name its key
/// stands for, so what the program attaches for that upstream (the shell
/// lifecycle handler, the offline Java proxy) has a route to go to.
pub proof fn lemma_upstream_finds_its_route(toml: TomlConfig, c: EnderConfig, i: int)
    requires
        0 <= i < toml.upstream@.len(),
        i < c.upstreams@.len(),
        kind_for_name(toml.upstream@[i].0@) is Some,
        route_from_toml(c.upstreams@[i], kind_for_name(toml.upstream@[i].0@)->0, toml.upstream@[i].1, toml.server.debug),
    ensures
        c.upstreams@[i].protocol.name@ == key_route_name(toml.upstream@[i].0@),
        exists|j: int| 0 <= j < c.upstreams@.len() && (#[trigger] c.upstreams@[j]).protocol.name@ == key_route_name(
            toml.upstream@[i].0@,
        ),
{
    assert(c.upstreams@[i].protocol.name@ == key_route_name(toml.upstream@[i].0@));
}

/// What the program attaches to a configured route for one upstream of the
/// file: which route (by index), whether it gets the shell lifecycle
/// handler, and whether it gets the offline Java proxy.
#[derive(Debug, Clone, Copy, PartialEq, Eq)]
pub struct Attachment {
    pub route: usize,
    pub shell_handler: bool,
    pub java_proxy: bool,
}

/// The attachment for the upstream `key` of the file, with its table
/// `route`: it applies to the first configured route whose protocol is
/// registered under the name the key stands for; that route gets the shell
/// lifecycle handler when the table has a startup or a shutdown command,
/// and the offline Java proxy when the key names the Minecraft Java
/// protocol. `None` when there is nothing to attach or no such route.
pub fn attachment_for(key: &str, route: &TomlRoute, upstreams: &Vec<EnderRoute>) -> (r: Option<Attachment>)
    ensures
        ({
            let name = key_route_name(key@);
            let shell = route.startup_cmd is Some || route.shutdown_cmd is Some;
            let java = java_names().contains(key@);
            match r {
                Some(a) => {
                    &&& a.route < upstreams@.len()
                    &&& upstreams@[a.route as int].protocol.name@ == name
                    &&& forall|j: int| 0 <= j < a.route ==> upstreams@[j].protocol.name@ != name
                    &&& a.shell_handler == shell
                    &&& a.java_proxy == java
                    &&& (shell || java)
                },
                None => !(shell || java) || forall|j: int|
                    0 <= j < upstreams@.len() ==> upstreams@[j].protocol.name@ != name,
            }
        }),
{
    let shell = route.startup_cmd.is_some() || route.shutdown_cmd.is_some();
    let java = is_java_protocol(key);
    if !(shell || java) {
        return None;
    }
    let name = route_name_for_key(key);
    match find_route(upstreams, name.as_str()) {
        Some(i) => Some(Attachment { route: i, shell_handler: shell, java_proxy: java }),
        None => None,
    }
}

impl EnderConfig {
    /// Builds the runtime configuration from the file. Upstreams are taken in
    /// order; the first whose name is neither a protocol id nor an alias
    /// fails the whole conversion with `Config(name, "unknown protocol")`.
    /// Otherwise each becomes a route for its protocol (with the hooked
    /// detector when `debug` is set) and the file's lifecycle settings; the
    /// shell commands are not part of a route.
    pub fn try_from_toml(toml: TomlConfig) -> (r: Result<EnderConfig, EnderError>)
        requires
            distinct_keys(toml.upstream@),
        ensures
            (exists|i: int| 0 <= i < toml.upstream@.len() && kind_for_name(toml.upstream@[i].0@) is None) ==> ({
                let i = choose|i: int| 0 <= i < toml.upstream@.len() && kind_for_name(toml.upstream@[i].0@) is None
                    && forall|j: int| 0 <= j < i ==> kind_for_name(#[trigger] toml.upstream@[j].0@) is Some;
                r matches Err(EnderError::Config(n, m)) && n == toml.upstream@[i].0 && m@ == msg_unknown_protocol()
            }),
            (forall|i: int| 0 <= i < toml.upstream@.len() ==> kind_for_name(#[trigger] toml.upstream@[i].0@) is Some) ==> ({
                &&& r matches Ok(c)
                &&& c.bind == toml.server.bind
                &&& c.port == toml.server.port
                &&& c.peek_buffer_size == toml.server.peek_buffer_size
                &&& c.peek_timeout_ms == toml.server.peek_timeout_ms
                &&& c.debug == toml.server.debug
                &&& c.upstreams@.len() == toml.upstream@.len()
                &&& forall|i: int| 0 <= i < toml.upstream@.len() ==> route_from_toml(
                    #[trigger] c.upstreams@[i],
                    kind_for_name(toml.upstream@[i].0@)->0,
                    toml.upstream@[i].1,
                    toml.server.debug,
                )
            }),
    {
        let mut upstreams: Vec<EnderRoute> = Vec::new();
        let mut i: usize = 0;
        while i < toml.upstream.len()
            invariant
                i <= toml.upstream@.len(),
                upstreams@.len() == i,
                forall|j: int| 0 <= j < i ==> kind_for_name(#[trigger] toml.upstream@[j].0@) is Some,
                forall|j: int| 0 <= j < i ==> route_from_toml(
                    #[trigger] upstreams@[j],
                    kind_for_name(toml.upstream@[j].0@)->0,
                    toml.upstream@[j].1,
                    toml.server.debug,
                ),
            decreases toml.upstream@.len() - i,
        {
            let name = &toml.upstream[i].0;
            let route = &toml.upstream[i].1;
            let targets = targets_of(&route.forward_to);
            let meta = match ProtocolMeta::lookup(name.as_str()) {
                Some(m) => m,
                None => {
                    proof {
                        let k = choose|k: int| 0 <= k < toml.upstream@.len() && kind_for_name(toml.upstream@[k].0@) is None
                            && forall|j: int| 0 <= j < k ==> kind_for_name(#[trigger] toml.upstream@[j].0@) is Some;
                        assert(kind_for_name(toml.upstream@[i as int].0@) is None);
                        if k < i {
                            assert(kind_for_name(toml.upstream@[k].0@) is Some);
                        }
                        if k > i {
                            assert(kind_for_name(toml.upstream@[i as int].0@) is Some);
                        }
                    }
                    return Err(EnderError::Config(clone_string(name), "unknown protocol".to_owned()));
                },
            };
            let protocol = match meta.kind.instantiate(toml.server.debug) {
                Some(p) => p,
                None => {
                    let mut reason = "requires '".to_owned();
                    reason.append(meta.feature);
                    reason.append("' feature");
                    return Err(EnderError::Config(clone_string(name), reason));
                },
            };
            let startup_on = match route.startup_on {
                TomlStartupOn::Join => StartupOn::Join,
                TomlStartupOn::Ping => StartupOn::Ping,
                TomlStartupOn::Always => StartupOn::Always,
            };
            let r = EnderRoute {
                protocol,
                targets,
                startup_on,
                shutdown_timeout_secs: route.shutdown_timeout,
                check_interval_secs: route.check_interval,
                min_players: route.min_players,
                startup_webhook: clone_opt_string(&route.startup_webhook),
                shutdown_webhook: clone_opt_string(&route.shutdown_webhook),
                offline_motd: clone_opt_string(&route.offline_motd),
                offline_message: clone_opt_string(&route.offline_message),
            };
            assert(kind_for_name(name@) == Some(meta.kind));
            upstreams.push(r);
            i = i + 1;
        }
        Ok(EnderConfig {
            bind: toml.server.bind,
            port: toml.server.port,
            peek_buffer_size: toml.server.peek_buffer_size,
            peek_timeout_ms: toml.server.peek_timeout_ms,
            upstreams,
            debug: toml.server.debug,
        })
    }
}


} // verus!

