//! The routing tables that a set of networks stands for.

use super::types::{
    ExitNodeInfo, HostnameRoute, Ipv4Net, NetworkSlice, PeerEntry, PeerView, RouteView, SubnetRoute,
    MAGIC_IP,
};
use crate::endpoint::endpoint_of;
use crate::names::first_wins;
use crate::policy::denylog::text_of;
use crate::policy::rules::texts;
use crate::text::{dotted, lowered};
use vstd::prelude::*;
use vstd::utf8::encode_utf8;

verus! {

/// The routing tables.
pub struct TablesView {
    pub by_ip: Map<u32, PeerView>,
    pub by_network_ip: Map<(u128, u32), PeerView>,
    pub by_endpoint: Map<Seq<char>, PeerView>,
    pub by_hostname: Map<Seq<char>, PeerView>,
    pub subnets: Seq<(Ipv4Net, PeerView)>,
    pub advertised: Seq<Ipv4Net>,
    pub hostname_exact: Map<Seq<char>, RouteView>,
    pub hostname_wildcards: Seq<RouteView>,
    pub advertised_hostnames: Seq<RouteView>,
    pub synthetic_hosts: Map<u32, Seq<char>>,
    pub dns_suffix: Seq<char>,
    pub network_name: Seq<char>,
    pub magic_ip: u32,
    pub exit_node: Option<PeerView>,
    pub version: u64,
}

/// Manual addresses of peers, by network and lower-case hostname or endpoint.
pub type Overrides = Map<(u128, Seq<char>), u32>;

/// No routes.
pub open spec fn no_tables(version: u64) -> TablesView {
    TablesView {
        by_ip: Map::empty(),
        by_network_ip: Map::empty(),
        by_endpoint: Map::empty(),
        by_hostname: Map::empty(),
        subnets: Seq::empty(),
        advertised: Seq::empty(),
        hostname_exact: Map::empty(),
        hostname_wildcards: Seq::empty(),
        advertised_hostnames: Seq::empty(),
        synthetic_hosts: Map::empty(),
        dns_suffix: "tunnet"@,
        network_name: Seq::empty(),
        magic_ip: MAGIC_IP,
        exit_node: None,
        version,
    }
}

/// The address of a peer: an override for its hostname, else one for its endpoint, else
/// its own.
pub open spec fn address_of(p: PeerEntry, net: u128, ov: Overrides) -> u32 {
    let h = (net, lowered(p.hostname@));
    let e = (net, lowered(p.endpoint_id@));
    if p.hostname@.len() > 0 && ov.dom().contains(h) {
        ov[h]
    } else if p.endpoint_id@.len() > 0 && ov.dom().contains(e) {
        ov[e]
    } else {
        p.ip
    }
}

/// A member of a network; none if its endpoint id is malformed.
pub open spec fn member(p: PeerEntry, net: u128, name: Seq<char>, ov: Overrides) -> Option<
    PeerView,
> {
    match endpoint_of(p.endpoint_id@) {
        None => None,
        Some(endpoint) => Some(
            PeerView {
                endpoint,
                endpoint_hex: p.endpoint_id@,
                hostname: p.hostname@,
                ip: address_of(p, net, ov),
                tags: texts(p.tags@),
                network_id: net,
                network_name: name,
                ssh_host_key: text_of(p.ssh_host_key),
            },
        ),
    }
}

/// A hostname within its network.
pub open spec fn qualified(host: Seq<char>, network: Seq<char>) -> Seq<char> {
    if network.len() == 0 {
        host
    } else {
        dotted(host, network)
    }
}

/// Tables in the making, with the members of the network at hand by endpoint.
pub struct Making {
    pub t: TablesView,
    pub local: Map<Seq<char>, PeerView>,
}

/// One more member.
pub open spec fn with_peer(
    m: Making,
    p: PeerEntry,
    net: u128,
    name: Seq<char>,
    ov: Overrides,
) -> Making {
    match member(p, net, name, ov) {
        None => m,
        Some(v) => {
            let host = lowered(p.hostname@);
            Making {
                t: TablesView {
                    by_network_ip: m.t.by_network_ip.insert((net, v.ip), v),
                    by_ip: first_wins(m.t.by_ip, v.ip, v),
                    by_endpoint: first_wins(m.t.by_endpoint, p.endpoint_id@, v),
                    by_hostname: if p.hostname@.len() == 0 {
                        m.t.by_hostname
                    } else {
                        first_wins(m.t.by_hostname, host, v).insert(qualified(host, name), v)
                    },
                    ..m.t
                },
                local: m.local.insert(p.endpoint_id@, v),
            }
        },
    }
}

pub open spec fn with_peers(
    m: Making,
    ps: Seq<PeerEntry>,
    net: u128,
    name: Seq<char>,
    ov: Overrides,
) -> Making
    decreases ps.len(),
{
    if ps.len() == 0 {
        m
    } else {
        with_peer(with_peers(m, ps.drop_last(), net, name, ov), ps.last(), net, name, ov)
    }
}

/// The gateway of a route: the member of that name, else a bare peer; none if the id is
/// malformed.
pub open spec fn gateway(
    local: Map<Seq<char>, PeerView>,
    id: Seq<char>,
    ip: u32,
    net: u128,
    name: Seq<char>,
) -> Option<PeerView> {
    if local.dom().contains(id) {
        Some(local[id])
    } else {
        match endpoint_of(id) {
            None => None,
            Some(endpoint) => Some(
                PeerView {
                    endpoint,
                    endpoint_hex: id,
                    hostname: Seq::empty(),
                    ip,
                    tags: Seq::empty(),
                    network_id: net,
                    network_name: name,
                    ssh_host_key: None,
                },
            ),
        }
    }
}

/// One more subnet, after those that are at least as narrow.
pub open spec fn with_subnet(
    s: Seq<(Ipv4Net, PeerView)>,
    e: (Ipv4Net, PeerView),
) -> Seq<(Ipv4Net, PeerView)>
    decreases s.len(),
{
    if s.len() == 0 || s[0].0.prefix < e.0.prefix {
        seq![e] + s
    } else {
        seq![s[0]] + with_subnet(s.drop_first(), e)
    }
}

pub open spec fn with_route(
    m: Making,
    r: SubnetRoute,
    net: u128,
    name: Seq<char>,
    self_id: Seq<char>,
) -> Making {
    if r.via_endpoint_id@ == self_id {
        Making { t: TablesView { advertised: m.t.advertised.push(r.cidr), ..m.t }, ..m }
    } else {
        match gateway(m.local, r.via_endpoint_id@, r.via_ip, net, name) {
            None => m,
            Some(v) => Making {
                t: TablesView { subnets: with_subnet(m.t.subnets, (r.cidr, v)), ..m.t },
                ..m
            },
        }
    }
}

pub open spec fn with_routes(
    m: Making,
    rs: Seq<SubnetRoute>,
    net: u128,
    name: Seq<char>,
    self_id: Seq<char>,
) -> Making
    decreases rs.len(),
{
    if rs.len() == 0 {
        m
    } else {
        with_route(with_routes(m, rs.drop_last(), net, name, self_id), rs.last(), net, name, self_id)
    }
}

/// What this node advertises as an exit node.
pub open spec fn with_own_exits(m: Making, es: Seq<ExitNodeInfo>, self_id: Seq<char>) -> Making
    decreases es.len(),
{
    if es.len() == 0 {
        m
    } else {
        let b = with_own_exits(m, es.drop_last(), self_id);
        if es.last().endpoint_id@ == self_id {
            Making {
                t: TablesView {
                    advertised: b.t.advertised + es.last().allowed_cidrs@,
                    ..b.t
                },
                ..b
            }
        } else {
            b
        }
    }
}

/// Some subnet has exactly this block.
pub open spec fn has_block(s: Seq<(Ipv4Net, PeerView)>, c: Ipv4Net) -> bool {
    exists|i: int| 0 <= i < s.len() && (#[trigger] s[i]).0 == c
}

/// The blocks that the chosen exit node takes; a block that is routed already stays.
pub open spec fn with_exit_blocks(
    s: Seq<(Ipv4Net, PeerView)>,
    cidrs: Seq<Ipv4Net>,
    v: PeerView,
) -> Seq<(Ipv4Net, PeerView)>
    decreases cidrs.len(),
{
    if cidrs.len() == 0 {
        s
    } else {
        let b = with_exit_blocks(s, cidrs.drop_last(), v);
        if has_block(b, cidrs.last()) {
            b
        } else {
            with_subnet(b, (cidrs.last(), v))
        }
    }
}

/// The first exit node with the given endpoint.
pub open spec fn exit_named(es: Seq<ExitNodeInfo>, id: Seq<char>) -> Option<ExitNodeInfo>
    decreases es.len(),
{
    if es.len() == 0 {
        None
    } else if es[0].endpoint_id@ == id {
        Some(es[0])
    } else {
        exit_named(es.drop_first(), id)
    }
}

/// The exit node that the device profile chooses.
pub open spec fn with_chosen_exit(
    m: Making,
    chosen: Option<Seq<char>>,
    es: Seq<ExitNodeInfo>,
    net: u128,
    name: Seq<char>,
) -> Making {
    match chosen {
        None => m,
        Some(id) => match exit_named(es, id) {
            None => m,
            Some(e) => match gateway(m.local, id, e.via_ip, net, name) {
                None => m,
                Some(v) => Making {
                    t: TablesView {
                        subnets: with_exit_blocks(m.t.subnets, e.allowed_cidrs@, v),
                        exit_node: if m.t.exit_node is None {
                            Some(v)
                        } else {
                            m.t.exit_node
                        },
                        ..m.t
                    },
                    ..m
                },
            },
        },
    }
}

/// One step of the hash of a name: FNV-1a.
pub open spec fn hash_step(h: u32, b: u8) -> u32 {
    (((h ^ (b as u32)) * 16777619) % 0x1_0000_0000) as u32
}

pub open spec fn hash_of(bytes: Seq<u8>) -> u32
    decreases bytes.len(),
{
    if bytes.len() == 0 {
        2166136261
    } else {
        hash_step(hash_of(bytes.drop_last()), bytes.last())
    }
}

/// Stable synthetic address in 100.100.0.0/16 of a hostname.
pub open spec fn synthetic(host: Seq<char>) -> u32 {
    (0x6464_0000 + hash_of(encode_utf8(host)) % 65534 + 1) as u32
}

/// One more wildcard, after those whose suffix is at least as long.
pub open spec fn with_wildcard(s: Seq<RouteView>, e: RouteView) -> Seq<RouteView>
    decreases s.len(),
{
    if s.len() == 0 || encode_utf8(s[0].hostname).len() < encode_utf8(e.hostname).len() {
        seq![e] + s
    } else {
        seq![s[0]] + with_wildcard(s.drop_first(), e)
    }
}

pub open spec fn with_hostname(
    m: Making,
    r: HostnameRoute,
    net: u128,
    name: Seq<char>,
    self_id: Seq<char>,
) -> Making {
    let host = lowered(r.hostname@);
    match gateway(m.local, r.via_endpoint_id@, r.via_ip, net, name) {
        None => m,
        Some(v) => {
            let info = RouteView {
                peer: v,
                is_wildcard: r.is_wildcard,
                target_ip: r.target_ip,
                hostname: host,
            };
            if r.via_endpoint_id@ == self_id {
                Making {
                    t: TablesView {
                        advertised_hostnames: m.t.advertised_hostnames.push(info),
                        ..m.t
                    },
                    ..m
                }
            } else if !r.is_wildcard {
                Making {
                    t: TablesView {
                        by_ip: first_wins(m.t.by_ip, synthetic(host), v),
                        synthetic_hosts: m.t.synthetic_hosts.insert(synthetic(host), host),
                        hostname_exact: m.t.hostname_exact.insert(host, info),
                        ..m.t
                    },
                    ..m
                }
            } else {
                Making {
                    t: TablesView {
                        hostname_wildcards: with_wildcard(m.t.hostname_wildcards, info),
                        ..m.t
                    },
                    ..m
                }
            }
        },
    }
}

pub open spec fn with_hostnames(
    m: Making,
    rs: Seq<HostnameRoute>,
    net: u128,
    name: Seq<char>,
    self_id: Seq<char>,
) -> Making
    decreases rs.len(),
{
    if rs.len() == 0 {
        m
    } else {
        with_hostname(
            with_hostnames(m, rs.drop_last(), net, name, self_id),
            rs.last(),
            net,
            name,
            self_id,
        )
    }
}

/// One more network: its members, its subnets, its exit nodes, its hostnames. The first
/// network with a name gives the tables theirs; the last one gives the DNS settings.
pub open spec fn with_slice(t: TablesView, net: u128, s: NetworkSlice, ov: Overrides) -> TablesView {
    let name = s.network_name@;
    let id = s.self_endpoint_id@;
    let t0 = TablesView {
        network_name: if t.network_name.len() == 0 {
            name
        } else {
            t.network_name
        },
        dns_suffix: s.dns.suffix@,
        magic_ip: s.dns.magic_ip,
        ..t
    };
    let m1 = with_peers(Making { t: t0, local: Map::empty() }, s.peers@, net, name, ov);
    let m2 = with_routes(m1, s.subnet_routes@, net, name, id);
    let m3 = with_own_exits(m2, s.exit_nodes@, id);
    let m4 = with_chosen_exit(
        m3,
        text_of(s.profile.exit_node_endpoint_id),
        s.exit_nodes@,
        net,
        name,
    );
    with_hostnames(m4, s.hostname_routes@, net, name, id).t
}

/// The tables of networks in the order in which they were joined.
pub open spec fn tables_of(
    slices: Seq<(u128, NetworkSlice)>,
    ov: Overrides,
    version: u64,
) -> TablesView
    decreases slices.len(),
{
    if slices.len() == 0 {
        no_tables(version)
    } else {
        with_slice(
            tables_of(slices.drop_last(), ov, version),
            slices.last().0,
            slices.last().1,
            ov,
        )
    }
}

} // verus!
