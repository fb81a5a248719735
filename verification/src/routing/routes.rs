use vstd::prelude::*;
use vstd::string::StringExecFns;
use crate::config::distinct_keys;
use crate::errors::EnderError;
use crate::protocols::ProtocolMeta;
use crate::routing::types::{EnderConfig, EnderRoute, Transport};
use crate::text::{digit_str, str_eq};

verus! {

/// Where matching traffic is forwarded.
#[derive(Debug, Clone, PartialEq, Eq)]
pub enum ForwardTarget {
    Single(String),
    Multiple(Vec<String>),
}

/// One entry of the engine's route table: the upstream it comes from (an
/// index into the configuration's upstreams) and where it forwards.
#[derive(Debug, Clone, PartialEq, Eq)]
pub struct PlannedRoute {
    pub route: usize,
    pub forward_to: ForwardTarget,
}

/// The engine's route tables: TCP first, then UDP.
#[derive(Debug, Clone, PartialEq, Eq)]
pub struct RoutePlan {
    pub tcp: Vec<PlannedRoute>,
    pub udp: Vec<PlannedRoute>,
}

/// The decimal digits of `n`, most significant first, without leading zeros.
pub open spec fn decimal_text(n: nat) -> Seq<char>
    decreases n,
{
    if n < 10 {
        seq![(48 + n) as char]
    } else {
        decimal_text(n / 10) + seq![(48 + n % 10) as char]
    }
}

/// Appends the decimal digits of `n` to `s`.
fn append_decimal(s: &mut String, n: u16)
    ensures
        final(s)@ == old(s)@ + decimal_text(n as nat),
    decreases n,
{
    if n >= 10 {
        append_decimal(s, n / 10);
    }
    let d = (n % 10) as u32;
    s.append(digit_str(d));
}

/// The decimal text of `n`, as `u16::to_string` writes it: its digits,
/// without sign or leading zeros.
fn u16_to_decimal(n: u16) -> (s: String)
    ensures
        s@ == decimal_text(n as nat),
{
    let mut s = String::new();
    append_decimal(&mut s, n);
    s
}

/// The local proxy port registered for a protocol name: the entry with
/// that name (the first, were there several).
pub open spec fn port_for(ports: Seq<(String, u16)>, name: Seq<char>) -> Option<u16>
    decreases ports.len(),
{
    if ports.len() == 0 {
        None
    } else if ports[0].0@ == name {
        Some(ports[0].1)
    } else {
        port_for(ports.drop_first(), name)
    }
}

/// Whether a protocol of transport `t` belongs in the TCP table (`tcp`) or
/// the UDP table (`!tcp`).
pub open spec fn carries(t: Transport, tcp: bool) -> bool {
    match t {
        Transport::Tcp => tcp,
        Transport::Udp => !tcp,
        Transport::Both => true,
    }
}

/// The indices, in order, of the first `n` routes that belong in a table.
pub open spec fn table_indices(routes: Seq<EnderRoute>, n: int, tcp: bool) -> Seq<int>
    decreases n,
{
    if n <= 0 {
        Seq::empty()
    } else if carries(routes[n - 1].protocol.transport, tcp) {
        table_indices(routes, n - 1, tcp).push(n - 1)
    } else {
        table_indices(routes, n - 1, tcp)
    }
}

/// A table holds exactly the routes its transport carries, in upstream
/// order: the indices are strictly increasing, each names a route among the
/// first `n` that the table carries, and every such route is among them.
pub proof fn lemma_table_indices_exact(routes: Seq<EnderRoute>, n: int, tcp: bool)
    requires
        0 <= n <= routes.len(),
    ensures
        forall|a: int, b: int|
            0 <= a < b < table_indices(routes, n, tcp).len() ==> table_indices(routes, n, tcp)[a]
                < table_indices(routes, n, tcp)[b],
        forall|k: int|
            0 <= k < table_indices(routes, n, tcp).len() ==> 0 <= #[trigger] table_indices(routes, n, tcp)[k] < n
                && carries(routes[table_indices(routes, n, tcp)[k]].protocol.transport, tcp),
        forall|j: int|
            0 <= j < n && carries(#[trigger] routes[j].protocol.transport, tcp) ==> table_indices(
                routes,
                n,
                tcp,
            ).contains(j),
    decreases n,
{
    if n > 0 {
        lemma_table_indices_exact(routes, n - 1, tcp);
        let prev = table_indices(routes, n - 1, tcp);
        let idx = table_indices(routes, n, tcp);
        if carries(routes[n - 1].protocol.transport, tcp) {
            assert(idx == prev.push(n - 1));
            assert forall|k: int| 0 <= k < idx.len() implies 0 <= #[trigger] idx[k] < n && carries(
                routes[idx[k]].protocol.transport,
                tcp,
            ) by {
                if k < prev.len() {
                    assert(idx[k] == prev[k]);
                }
            }
            assert forall|a: int, b: int| 0 <= a < b < idx.len() implies idx[a] < idx[b] by {
                assert(idx[a] == prev[a]);
                if b < prev.len() {
                    assert(idx[b] == prev[b]);
                } else {
                    assert(prev[a] < n - 1);
                }
            }
            assert forall|j: int| 0 <= j < n && carries(#[trigger] routes[j].protocol.transport, tcp) implies idx.contains(
                j,
            ) by {
                if j < n - 1 {
                    let k = choose|k: int| 0 <= k < prev.len() && prev[k] == j;
                    assert(idx[k] == j);
                } else {
                    assert(idx[prev.len() as int] == j);
                }
            }
        } else {
            assert(idx == prev);
        }
    }
}

/// `f` is where `route` forwards: the local proxy for its protocol when one
/// is registered, else its only target, else all of its targets.
pub open spec fn forwards_as(f: ForwardTarget, route: EnderRoute, ports: Seq<(String, u16)>) -> bool {
    match port_for(ports, route.protocol.name@) {
        Some(p) => f matches ForwardTarget::Single(s) && s@ == "127.0.0.1:"@ + decimal_text(p as nat),
        None => if route.targets@.len() == 1 {
            f == ForwardTarget::Single(route.targets@[0])
        } else {
            f matches ForwardTarget::Multiple(v) && v@ == route.targets@
        },
    }
}

/// `table` is the route table of `routes` for one transport.
pub open spec fn is_table(table: Seq<PlannedRoute>, routes: Seq<EnderRoute>, ports: Seq<(String, u16)>, tcp: bool) -> bool {
    let idx = table_indices(routes, routes.len() as int, tcp);
    &&& table.len() == idx.len()
    &&& forall|k: int| 0 <= k < table.len() ==> {
        &&& (#[trigger] table[k]).route == idx[k]
        &&& forwards_as(table[k].forward_to, routes[idx[k]], ports)
    }
}

/// Which table a route goes to, in explicit terms: a TCP protocol to the
/// TCP table only, a UDP protocol to the UDP table only, one over both to
/// both.
pub proof fn lemma_transport_tables(t: Transport)
    ensures
        carries(Transport::Tcp, true) && !carries(Transport::Tcp, false),
        !carries(Transport::Udp, true) && carries(Transport::Udp, false),
        carries(Transport::Both, true) && carries(Transport::Both, false),
        carries(t, true) || carries(t, false),
{
}

/// The proxy port found for a name is one registered under that name, and
/// a name with a registered port always finds one: `port_for` finds `p`
/// exactly when an entry (name, p) exists, taking the first such entry.
pub proof fn lemma_port_for_registered(ports: Seq<(String, u16)>, name: Seq<char>)
    ensures
        port_for(ports, name) matches Some(p) ==> exists|i: int|
            0 <= i < ports.len() && (#[trigger] ports[i]).0@ == name && ports[i].1 == p,
        port_for(ports, name) is None <==> forall|i: int| 0 <= i < ports.len() ==> (#[trigger] ports[i]).0@ != name,
        distinct_keys(ports) ==> forall|i: int|
            0 <= i < ports.len() && (#[trigger] ports[i]).0@ == name ==> port_for(ports, name) == Some(ports[i].1),
    decreases ports.len(),
{
    if ports.len() > 0 {
        let rest = ports.drop_first();
        lemma_port_for_registered(rest, name);
        assert forall|i: int| 0 < i < ports.len() implies (#[trigger] ports[i]) == rest[i - 1] by {}
        if ports[0].0@ != name {
            if let Some(p) = port_for(ports, name) {
                let j = choose|j: int| 0 <= j < rest.len() && (#[trigger] rest[j]).0@ == name && rest[j].1 == p;
                assert(ports[j + 1] == rest[j]);
            }
            if port_for(ports, name) is None {
                assert forall|i: int| 0 <= i < ports.len() implies (#[trigger] ports[i]).0@ != name by {
                    if i > 0 {
                        assert(ports[i] == rest[i - 1]);
                    }
                }
            } else {
                let p = port_for(ports, name)->0;
                let j = choose|j: int| 0 <= j < rest.len() && (#[trigger] rest[j]).0@ == name && rest[j].1 == p;
                assert(ports[j + 1] == rest[j]);
            }
            if distinct_keys(ports) {
                assert forall|a: int, b: int|
                    0 <= a < rest.len() && 0 <= b < rest.len() && a != b implies (#[trigger] rest[a]).0@ != (
                    #[trigger] rest[b]).0@ by {
                    assert(rest[a] == ports[a + 1]);
                    assert(rest[b] == ports[b + 1]);
                }
                assert forall|i: int| 0 <= i < ports.len() && (#[trigger] ports[i]).0@ == name implies port_for(
                    ports,
                    name,
                ) == Some(ports[i].1) by {
                    assert(ports[i] == rest[i - 1]);
                }
            }
        } else {
            assert(ports[0].0@ == name);
            if distinct_keys(ports) {
                assert forall|i: int| 0 <= i < ports.len() && (#[trigger] ports[i]).0@ == name implies port_for(
                    ports,
                    name,
                ) == Some(ports[i].1) by {
                    if i != 0 {
                        assert(ports[i].0@ != ports[0].0@);
                    }
                }
            }
        }
    }
}

/// A route redirected to its local proxy forwards to "127.0.0.1:" followed
/// by the port in decimal; otherwise it forwards to its own targets.
pub proof fn lemma_forward_address(f: ForwardTarget, route: EnderRoute, ports: Seq<(String, u16)>)
    requires
        forwards_as(f, route, ports),
    ensures
        match port_for(ports, route.protocol.name@) {
            Some(p) => f matches ForwardTarget::Single(s) && s@ == seq!['1', '2', '7', '.', '0', '.', '0', '.', '1', ':']
                + decimal_text(p as nat),
            None => if route.targets@.len() == 1 {
                f == ForwardTarget::Single(route.targets@[0])
            } else {
                f matches ForwardTarget::Multiple(v) && v@ == route.targets@
            },
        },
{
    reveal_strlit("127.0.0.1:");
    assert("127.0.0.1:"@ =~= seq!['1', '2', '7', '.', '0', '.', '0', '.', '1', ':']);
}

fn proxy_port(ports: &Vec<(String, u16)>, name: &str) -> (r: Option<u16>)
    ensures
        r == port_for(ports@, name@),
{
    let mut i: usize = 0;
    assert(ports@.skip(0) =~= ports@);
    while i < ports.len()
        invariant
            i <= ports@.len(),
            port_for(ports@, name@) == port_for(ports@.skip(i as int), name@),
        decreases ports@.len() - i,
    {
        if str_eq(ports[i].0.as_str(), name) {
            return Some(ports[i].1);
        }
        assert(ports@.skip(i as int).drop_first() =~= ports@.skip(i + 1));
        i = i + 1;
    }
    None
}

/// Two forward targets name the same backends.
pub open spec fn same_target(a: ForwardTarget, b: ForwardTarget) -> bool {
    match (a, b) {
        (ForwardTarget::Single(x), ForwardTarget::Single(y)) => x == y,
        (ForwardTarget::Multiple(v), ForwardTarget::Multiple(w)) => v@ == w@,
        _ => false,
    }
}

fn clone_target(f: &ForwardTarget) -> (r: ForwardTarget)
    ensures
        same_target(r, *f),
{
    match f {
        ForwardTarget::Single(s) => {
            let c = s.clone();
            assert(c == *s);
            ForwardTarget::Single(c)
        },
        ForwardTarget::Multiple(v) => {
            let mut c: Vec<String> = Vec::new();
            let mut i: usize = 0;
            while i < v.len()
                invariant
                    i <= v@.len(),
                    c@ == v@.subrange(0, i as int),
                decreases v@.len() - i,
            {
                c.push(v[i].clone());
                i = i + 1;
                assert(c@ =~= v@.subrange(0, i as int));
            }
            assert(v@.subrange(0, v@.len() as int) =~= v@);
            assert(c@ == v@);
            ForwardTarget::Multiple(c)
        },
    }
}

fn forward_target(route: &EnderRoute, ports: &Vec<(String, u16)>) -> (f: ForwardTarget)
    ensures
        forwards_as(f, *route, ports@),
{
    match proxy_port(ports, route.protocol.name.as_str()) {
        Some(p) => {
            let mut s = "127.0.0.1:".to_owned();
            let digits = u16_to_decimal(p);
            s.append(digits.as_str());
            ForwardTarget::Single(s)
        },
        None => {
            if route.targets.len() == 1 {
                ForwardTarget::Single(route.targets[0].clone())
            } else {
                let mut v: Vec<String> = Vec::new();
                let mut i: usize = 0;
                while i < route.targets.len()
                    invariant
                        i <= route.targets@.len(),
                        v@ == route.targets@.subrange(0, i as int),
                    decreases route.targets@.len() - i,
                {
                    v.push(route.targets[i].clone());
                    i = i + 1;
                    assert(v@ =~= route.targets@.subrange(0, i as int));
                }
                assert(route.targets@.subrange(0, route.targets@.len() as int) =~= route.targets@);
                ForwardTarget::Multiple(v)
            }
        },
    }
}

/// Turns the configured upstreams into the engine's TCP and UDP route
/// tables, in upstream order: a TCP protocol goes to the TCP table, a UDP
/// one to the UDP table, one running over both to both. A route whose
/// protocol has a local proxy port in `proxy_ports` forwards to
/// 127.0.0.1 on that port instead of its targets. (A known protocol whose
/// feature is disabled would make it fail; both built-in protocols
/// are enabled, so it always succeeds.) `proxy_ports` is keyed by protocol
/// name, so a name occurs once in it.
pub fn map_to_refractium(config: &EnderConfig, proxy_ports: &Vec<(String, u16)>) -> (r: Result<RoutePlan, EnderError>)
    requires
        distinct_keys(proxy_ports@),
    ensures
        r matches Ok(plan) && is_table(plan.tcp@, config.upstreams@, proxy_ports@, true)
            && is_table(plan.udp@, config.upstreams@, proxy_ports@, false),
{
    let mut tcp: Vec<PlannedRoute> = Vec::new();
    let mut udp: Vec<PlannedRoute> = Vec::new();
    let mut i: usize = 0;
    while i < config.upstreams.len()
        invariant
            i <= config.upstreams@.len(),
            is_table(tcp@, config.upstreams@.subrange(0, i as int), proxy_ports@, true),
            is_table(udp@, config.upstreams@.subrange(0, i as int), proxy_ports@, false),
        decreases config.upstreams@.len() - i,
    {
        let route = &config.upstreams[i];
        if let Some(meta) = ProtocolMeta::lookup(route.protocol.name.as_str()) {
            if !meta.is_enabled {
                let mut place = "in upstream '".to_owned();
                place.append(route.protocol.name.as_str());
                place.append("'");
                let mut reason = "requires '".to_owned();
                reason.append(meta.feature);
                reason.append("' feature");
                return Err(EnderError::Config(place, reason));
            }
        }
        let target = forward_target(route, proxy_ports);
        let copy = clone_target(&target);
        let ghost before = config.upstreams@.subrange(0, i as int);
        let ghost after = config.upstreams@.subrange(0, i + 1);
        let ghost old_tcp = tcp@;
        let ghost old_udp = udp@;
        proof {
            assert(after =~= before.push(*route));
            lemma_table_extend(before, after, *route, proxy_ports@);
        }
        match route.protocol.transport {
            Transport::Tcp => {
                tcp.push(PlannedRoute { route: i, forward_to: target });
            },
            Transport::Udp => {
                udp.push(PlannedRoute { route: i, forward_to: target });
            },
            Transport::Both => {
                tcp.push(PlannedRoute { route: i, forward_to: copy });
                udp.push(PlannedRoute { route: i, forward_to: target });
            },
        }
        proof {
            if carries(route.protocol.transport, true) {
                assert(tcp@.subrange(0, old_tcp.len() as int) =~= old_tcp);
            }
            if carries(route.protocol.transport, false) {
                assert(udp@.subrange(0, old_udp.len() as int) =~= old_udp);
            }
            lemma_table_push(old_tcp, tcp@, before, after, *route, proxy_ports@, true);
            lemma_table_push(old_udp, udp@, before, after, *route, proxy_ports@, false);
        }
        i = i + 1;
    }
    assert(config.upstreams@.subrange(0, config.upstreams@.len() as int) =~= config.upstreams@);
    Ok(RoutePlan { tcp, udp })
}

proof fn lemma_table_extend(before: Seq<EnderRoute>, after: Seq<EnderRoute>, route: EnderRoute, ports: Seq<(String, u16)>)
    requires
        after == before.push(route),
    ensures
        forall|tcp: bool| #[trigger] table_indices(after, after.len() as int, tcp) == if carries(route.protocol.transport, tcp) {
            table_indices(before, before.len() as int, tcp).push(before.len() as int)
        } else {
            table_indices(before, before.len() as int, tcp)
        },
{
    assert forall|tcp: bool| #[trigger] table_indices(after, after.len() as int, tcp) == if carries(route.protocol.transport, tcp) {
        table_indices(before, before.len() as int, tcp).push(before.len() as int)
    } else {
        table_indices(before, before.len() as int, tcp)
    } by {
        lemma_table_prefix(before, after, before.len() as int, tcp);
    }
}

proof fn lemma_table_push(
    old_table: Seq<PlannedRoute>,
    new_table: Seq<PlannedRoute>,
    before: Seq<EnderRoute>,
    after: Seq<EnderRoute>,
    route: EnderRoute,
    ports: Seq<(String, u16)>,
    tcp: bool,
)
    requires
        after == before.push(route),
        is_table(old_table, before, ports, tcp),
        carries(route.protocol.transport, tcp) ==> {
            &&& new_table.len() == old_table.len() + 1
            &&& new_table.subrange(0, old_table.len() as int) == old_table
            &&& new_table.last().route == before.len()
            &&& forwards_as(new_table.last().forward_to, route, ports)
        },
        !carries(route.protocol.transport, tcp) ==> new_table == old_table,
        table_indices(after, after.len() as int, tcp) == if carries(route.protocol.transport, tcp) {
            table_indices(before, before.len() as int, tcp).push(before.len() as int)
        } else {
            table_indices(before, before.len() as int, tcp)
        },
    ensures
        is_table(new_table, after, ports, tcp),
{
    let idx_old = table_indices(before, before.len() as int, tcp);
    let idx_new = table_indices(after, after.len() as int, tcp);
    lemma_table_bounds(before, before.len() as int, tcp);
    assert forall|k: int| 0 <= k < new_table.len() implies {
        &&& (#[trigger] new_table[k]).route == idx_new[k]
        &&& forwards_as(new_table[k].forward_to, after[idx_new[k]], ports)
    } by {
        if k < old_table.len() {
            assert(new_table[k] == new_table.subrange(0, old_table.len() as int)[k]);
            assert(new_table[k] == old_table[k]);
            assert(idx_new[k] == idx_old[k]);
            assert(after[idx_old[k]] == before[idx_old[k]]);
        } else {
            assert(carries(route.protocol.transport, tcp));
            assert(idx_new[k] == before.len());
            assert(after[before.len() as int] == route);
        }
    }
}

proof fn lemma_table_bounds(routes: Seq<EnderRoute>, n: int, tcp: bool)
    ensures
        forall|k: int| 0 <= k < table_indices(routes, n, tcp).len() ==> 0 <= #[trigger] table_indices(routes, n, tcp)[k] < n,
    decreases n,
{
    if n > 0 {
        lemma_table_bounds(routes, n - 1, tcp);
        let prev = table_indices(routes, n - 1, tcp);
        if carries(routes[n - 1].protocol.transport, tcp) {
            assert forall|k: int| 0 <= k < table_indices(routes, n, tcp).len()
                implies 0 <= #[trigger] table_indices(routes, n, tcp)[k] < n by {
                if k < prev.len() {
                    assert(table_indices(routes, n, tcp)[k] == prev[k]);
                }
            }
        }
    }
}

proof fn lemma_table_prefix(before: Seq<EnderRoute>, after: Seq<EnderRoute>, n: int, tcp: bool)
    requires
        0 <= n <= before.len(),
        before.len() <= after.len(),
        forall|j: int| 0 <= j < before.len() ==> before[j] == after[j],
    ensures
        table_indices(after, n, tcp) == table_indices(before, n, tcp),
    decreases n,
{
    if n > 0 {
        lemma_table_prefix(before, after, n - 1, tcp);
    }
}

} // verus!
