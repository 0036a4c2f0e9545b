//! Building the routing tables.

use super::model::{
    address_of, exit_named, gateway, has_block, hash_of, member, no_tables, qualified, synthetic,
    tables_of, with_chosen_exit, with_exit_blocks, with_hostname, with_hostnames, with_own_exits,
    with_peer, with_peers, with_routes, with_slice, with_subnet, with_wildcard, Making, TablesView,
};
use super::overrides::{override_get, overrides_of};
use super::types::{
    ExitNodeInfo, HostnameRoute, HostnameRouteInfo, Ipv4Net, NetworkSlice, PeerEntry, PeerInfo,
    PeerView, RouteView, SubnetRoute, MAGIC_IP,
};
use crate::endpoint::parse_endpoint;
use crate::names::{first_wins, share, NameTable};
use crate::policy::denylog::text_of;
use crate::policy::rules::texts;
use crate::table::{Key, Table};
use crate::text::{copy_text, join_dotted, same_text, to_lower};
use std::collections::HashMap;
use std::sync::Arc;
use vstd::prelude::*;
use vstd::string::*;
use vstd::utf8::encode_utf8;

verus! {

broadcast use vstd::std_specs::hash::group_hash_axioms;

impl Key for (u128, u32) {
    fn same(&self, other: &Self) -> (b: bool) {
        self.0 == other.0 && self.1 == other.1
    }
}

/// A copy of a list of strings.
pub fn copy_texts(v: &[String]) -> (r: Vec<String>)
    ensures
        texts(r@) == texts(v@),
{
    let mut r: Vec<String> = Vec::new();
    let mut i: usize = 0;
    while i < v.len()
        invariant
            i <= v@.len(),
            r@.len() == i,
            forall|j: int| 0 <= j < i ==> (#[trigger] r@[j])@ == v@[j]@,
        decreases v.len() - i,
    {
        r.push(v[i].clone());
        i += 1;
    }
    assert(texts(r@) =~= texts(v@));
    r
}

/// Shared peers by their views.
pub open spec fn peers_seen<K>(m: Map<K, Arc<PeerInfo>>) -> Map<K, PeerView> {
    Map::new(|k: K| m.dom().contains(k), |k: K| (*m[k])@)
}

pub open spec fn routes_seen<K>(m: Map<K, Arc<HostnameRouteInfo>>) -> Map<K, RouteView> {
    Map::new(|k: K| m.dom().contains(k), |k: K| (*m[k])@)
}

pub open spec fn hosts_seen(m: Map<u32, String>) -> Map<u32, Seq<char>> {
    Map::new(|k: u32| m.dom().contains(k), |k: u32| m[k]@)
}

pub open spec fn subnets_seen(s: Seq<(Ipv4Net, Arc<PeerInfo>)>) -> Seq<(Ipv4Net, PeerView)> {
    Seq::new(s.len(), |i: int| (s[i].0, (*s[i].1)@))
}

pub open spec fn route_list_seen(s: Seq<Arc<HostnameRouteInfo>>) -> Seq<RouteView> {
    Seq::new(s.len(), |i: int| (*s[i])@)
}

proof fn lemma_peers_insert<K>(m: Map<K, Arc<PeerInfo>>, k: K, v: Arc<PeerInfo>)
    ensures
        peers_seen(m.insert(k, v)) == peers_seen(m).insert(k, (*v)@),
        peers_seen(first_wins(m, k, v)) == first_wins(peers_seen(m), k, (*v)@),
{
    assert(peers_seen(m.insert(k, v)) =~= peers_seen(m).insert(k, (*v)@));
}

proof fn lemma_routes_insert<K>(m: Map<K, Arc<HostnameRouteInfo>>, k: K, v: Arc<HostnameRouteInfo>)
    ensures
        routes_seen(m.insert(k, v)) == routes_seen(m).insert(k, (*v)@),
{
    assert(routes_seen(m.insert(k, v)) =~= routes_seen(m).insert(k, (*v)@));
}

pub struct Tables {
    pub by_ip: HashMap<u32, Arc<PeerInfo>>,
    /// All memberships including same IP across networks.
    pub by_network_ip: Table<(u128, u32), Arc<PeerInfo>>,
    pub by_endpoint: NameTable<Arc<PeerInfo>>,
    pub by_hostname: NameTable<Arc<PeerInfo>>,
    /// Longest-prefix-match candidates, sorted by prefix length descending.
    pub subnets: Vec<(Ipv4Net, Arc<PeerInfo>)>,
    /// CIDRs this node itself advertises (local LAN forwarding).
    pub advertised: Vec<Ipv4Net>,
    /// Exact hostname → gateway.
    pub hostname_exact: NameTable<Arc<HostnameRouteInfo>>,
    /// Wildcard suffixes, longest first.
    pub hostname_wildcards: Vec<Arc<HostnameRouteInfo>>,
    /// Hostname routes this node itself advertises (local resolve + proxy).
    pub advertised_hostnames: Vec<Arc<HostnameRouteInfo>>,
    /// Synthetic IP → hostname (PeerDNS hostname-route answers).
    pub synthetic_hosts: HashMap<u32, String>,
    pub dns_suffix: String,
    pub network_name: String,
    /// PeerDNS magic listener IP (local, not mesh-forwarded).
    pub magic_ip: u32,
    /// Selected exit node peer (when device_profile chooses one).
    pub exit_node: Option<Arc<PeerInfo>>,
    pub version: u64,
}

impl View for Tables {
    type V = TablesView;

    open spec fn view(&self) -> TablesView {
        TablesView {
            by_ip: peers_seen(self.by_ip@),
            by_network_ip: peers_seen(self.by_network_ip@),
            by_endpoint: peers_seen(self.by_endpoint@),
            by_hostname: peers_seen(self.by_hostname@),
            subnets: subnets_seen(self.subnets@),
            advertised: self.advertised@,
            hostname_exact: routes_seen(self.hostname_exact@),
            hostname_wildcards: route_list_seen(self.hostname_wildcards@),
            advertised_hostnames: route_list_seen(self.advertised_hostnames@),
            synthetic_hosts: hosts_seen(self.synthetic_hosts@),
            dns_suffix: self.dns_suffix@,
            network_name: self.network_name@,
            magic_ip: self.magic_ip,
            exit_node: match self.exit_node {
                Some(p) => Some((*p)@),
                None => None,
            },
            version: self.version,
        }
    }
}

impl Tables {
    pub open spec fn wf(&self) -> bool {
        &&& self.by_network_ip.wf()
        &&& self.by_endpoint.wf()
        &&& self.by_hostname.wf()
        &&& self.hostname_exact.wf()
    }

    pub fn new(version: u64) -> (t: Self)
        ensures
            t.wf(),
            t@ == no_tables(version),
    {
        let t = Tables {
            by_ip: HashMap::new(),
            by_network_ip: Table::new(),
            by_endpoint: NameTable::new(),
            by_hostname: NameTable::new(),
            subnets: Vec::new(),
            advertised: Vec::new(),
            hostname_exact: NameTable::new(),
            hostname_wildcards: Vec::new(),
            advertised_hostnames: Vec::new(),
            synthetic_hosts: HashMap::new(),
            dns_suffix: "tunnet".to_owned(),
            network_name: String::new(),
            magic_ip: MAGIC_IP,
            exit_node: None,
            version,
        };
        proof {
            let n = no_tables(version);
            assert(t@.by_ip =~= n.by_ip);
            assert(t@.by_network_ip =~= n.by_network_ip);
            assert(t@.by_endpoint =~= n.by_endpoint);
            assert(t@.by_hostname =~= n.by_hostname);
            assert(t@.subnets =~= n.subnets);
            assert(t@.advertised =~= n.advertised);
            assert(t@.hostname_exact =~= n.hostname_exact);
            assert(t@.hostname_wildcards =~= n.hostname_wildcards);
            assert(t@.advertised_hostnames =~= n.advertised_hostnames);
            assert(t@.synthetic_hosts =~= n.synthetic_hosts);
            assert(t@.network_name =~= n.network_name);
        }
        t
    }
}

/// Tables in the making.
struct Maker {
    t: Tables,
    local: NameTable<Arc<PeerInfo>>,
}

/// Stable synthetic IP in 100.100.0.0/16 derived from hostname.
pub fn synthetic_ip_for(host: &str) -> (ip: u32)
    ensures
        ip == synthetic(host@),
{
    let bytes = host.as_bytes();
    let mut hash: u32 = 2166136261;
    let mut i: usize = 0;
    while i < bytes.len()
        invariant
            i <= bytes@.len(),
            hash == hash_of(bytes@.take(i as int)),
        decreases bytes.len() - i,
    {
        proof {
            assert(bytes@.take(i + 1).drop_last() =~= bytes@.take(i as int));
        }
        let x: u32 = hash ^ (bytes[i] as u32);
        hash = ((x as u64 * 16777619) % 0x1_0000_0000) as u32;
        i += 1;
    }
    assert(bytes@.take(i as int) =~= bytes@);
    0x6464_0000 + hash % 65534 + 1
}

impl Maker {
    spec fn seen(&self) -> Making {
        Making { t: self.t@, local: peers_seen(self.local@) }
    }

    spec fn wf(&self) -> bool {
        self.t.wf() && self.local.wf()
    }

    /// The address of a peer.
    fn address(
        p: &PeerEntry,
        net: u128,
        ov: &dashmap::DashMap<(u128, String), u32>,
    ) -> (ip: u32)
        ensures
            ip == address_of(*p, net, overrides_of(*ov)),
    {
        let host = to_lower(p.hostname.as_str());
        if !p.hostname.as_str().is_empty() {
            if let Some(ip) = override_get(ov, net, host) {
                return ip;
            }
        }
        let id = to_lower(p.endpoint_id.as_str());
        if !p.endpoint_id.as_str().is_empty() {
            if let Some(ip) = override_get(ov, net, id) {
                return ip;
            }
        }
        p.ip
    }

    fn put_by_ip(&mut self, ip: u32, info: &Arc<PeerInfo>)
        requires
            old(self).wf(),
        ensures
            final(self).wf(),
            final(self).seen() == (Making {
                t: TablesView {
                    by_ip: first_wins(old(self).seen().t.by_ip, ip, (**info)@),
                    ..old(self).seen().t
                },
                ..old(self).seen()
            }),
    {
        proof {
            lemma_peers_insert(self.t.by_ip@, ip, *info);
        }
        if !self.t.by_ip.contains_key(&ip) {
            self.t.by_ip.insert(ip, share(info));
        }
    }

    fn put_peer(
        &mut self,
        p: &PeerEntry,
        net: u128,
        name: &str,
        ov: &dashmap::DashMap<(u128, String), u32>,
    )
        requires
            old(self).wf(),
        ensures
            final(self).wf(),
            final(self).seen() == with_peer(old(self).seen(), *p, net, name@, overrides_of(*ov)),
    {
        let endpoint = match parse_endpoint(p.endpoint_id.as_str()) {
            Some(e) => e,
            None => {
                return;
            },
        };
        let ip: u32 = Maker::address(p, net, ov);
        let info = Arc::new(
            PeerInfo {
                endpoint,
                endpoint_hex: p.endpoint_id.clone(),
                hostname: p.hostname.clone(),
                ip,
                tags: copy_texts(p.tags.as_slice()),
                network_id: net,
                network_name: name.to_owned(),
                ssh_host_key: copy_text(&p.ssh_host_key),
            },
        );
        assert(Some((*info)@) == member(*p, net, name@, overrides_of(*ov)));
        proof {
            lemma_peers_insert(self.t.by_network_ip@, (net, ip), info);
            lemma_peers_insert(self.t.by_endpoint@, p.endpoint_id@, info);
            lemma_peers_insert(self.local@, p.endpoint_id@, info);
        }
        let ghost goal = with_peer(self.seen(), *p, net, name@, overrides_of(*ov));
        self.t.by_network_ip.insert((net, ip), share(&info));
        self.put_by_ip(ip, &info);
        self.t.by_endpoint.insert_first(p.endpoint_id.clone(), share(&info));
        self.local.insert(p.endpoint_id.clone(), share(&info));
        if !p.hostname.as_str().is_empty() {
            let host = to_lower(p.hostname.as_str());
            let key = if name.is_empty() {
                host.clone()
            } else {
                join_dotted(host.as_str(), name)
            };
            assert(key@ == qualified(host@, name@));
            proof {
                lemma_peers_insert(self.t.by_hostname@, host@, info);
                lemma_peers_insert(first_wins(self.t.by_hostname@, host@, info), key@, info);
            }
            self.t.by_hostname.insert_first(host, share(&info));
            self.t.by_hostname.insert(key, info);
        }
        proof {
            assert(self.seen().t.by_network_ip == goal.t.by_network_ip);
            assert(self.seen().t.by_ip == goal.t.by_ip);
            assert(self.seen().t.by_endpoint == goal.t.by_endpoint);
            assert(self.seen().t.by_hostname == goal.t.by_hostname);
            assert(self.seen().local == goal.local);
        }
    }

    fn put_peers(
        &mut self,
        ps: &[PeerEntry],
        net: u128,
        name: &str,
        ov: &dashmap::DashMap<(u128, String), u32>,
    )
        requires
            old(self).wf(),
        ensures
            final(self).wf(),
            final(self).seen() == with_peers(old(self).seen(), ps@, net, name@, overrides_of(*ov)),
    {
        let ghost m0 = self.seen();
        let mut i: usize = 0;
        while i < ps.len()
            invariant
                self.wf(),
                i <= ps@.len(),
                m0 == old(self).seen(),
                self.seen() == with_peers(m0, ps@.take(i as int), net, name@, overrides_of(*ov)),
            decreases ps.len() - i,
        {
            proof {
                assert(ps@.take(i + 1).drop_last() =~= ps@.take(i as int));
            }
            self.put_peer(&ps[i], net, name, ov);
            i += 1;
        }
        assert(ps@.take(i as int) =~= ps@);
    }

    /// The gateway of a route.
    fn peer_for_via(&self, id: &str, ip: u32, net: u128, name: &str) -> (r: Option<Arc<PeerInfo>>)
        requires
            self.wf(),
        ensures
            r is Some == gateway(self.seen().local, id@, ip, net, name@) is Some,
            r matches Some(p) ==> gateway(self.seen().local, id@, ip, net, name@) == Some((*p)@),
    {
        if let Some(p) = self.local.get(id) {
            return Some(share(p));
        }
        match parse_endpoint(id) {
            Some(endpoint) => {
                let p = PeerInfo {
                    endpoint,
                    endpoint_hex: id.to_owned(),
                    hostname: String::new(),
                    ip,
                    tags: Vec::new(),
                    network_id: net,
                    network_name: name.to_owned(),
                    ssh_host_key: None,
                };
                proof {
                    assert(p@.hostname =~= Seq::<char>::empty());
                    assert(p@.tags =~= Seq::<Seq<char>>::empty());
                }
                Some(Arc::new(p))
            },
            None => None,
        }
    }

    fn put_subnet(&mut self, cidr: Ipv4Net, peer: &Arc<PeerInfo>)
        requires
            old(self).wf(),
        ensures
            final(self).wf(),
            final(self).seen() == (Making {
                t: TablesView {
                    subnets: with_subnet(old(self).seen().t.subnets, (cidr, (**peer)@)),
                    ..old(self).seen().t
                },
                ..old(self).seen()
            }),
    {
        let ghost s = self.t@.subnets;
        let mut i: usize = 0;
        while i < self.t.subnets.len() && self.t.subnets[i].0.prefix >= cidr.prefix
            invariant
                i <= self.t.subnets@.len(),
                s == subnets_seen(self.t.subnets@),
                forall|j: int| 0 <= j < i ==> (#[trigger] s[j]).0.prefix >= cidr.prefix,
            decreases self.t.subnets.len() - i,
        {
            assert(s[i as int].0 == self.t.subnets@[i as int].0);
            i += 1;
        }
        proof {
            if i < s.len() {
                assert(s[i as int].0 == self.t.subnets@[i as int].0);
            }
            lemma_with_subnet(s, (cidr, (**peer)@), i as int);
        }
        self.t.subnets.insert(i, (cidr, share(peer)));
        assert(self.t@.subnets =~= s.insert(i as int, (cidr, (**peer)@)));
    }

    fn put_routes(&mut self, rs: &[SubnetRoute], net: u128, name: &str, self_id: &str)
        requires
            old(self).wf(),
        ensures
            final(self).wf(),
            final(self).seen() == with_routes(old(self).seen(), rs@, net, name@, self_id@),
    {
        let ghost m0 = self.seen();
        let mut i: usize = 0;
        while i < rs.len()
            invariant
                self.wf(),
                i <= rs@.len(),
                m0 == old(self).seen(),
                self.seen() == with_routes(m0, rs@.take(i as int), net, name@, self_id@),
            decreases rs.len() - i,
        {
            proof {
                assert(rs@.take(i + 1).drop_last() =~= rs@.take(i as int));
            }
            let r = &rs[i];
            if same_text(r.via_endpoint_id.as_str(), self_id) {
                self.t.advertised.push(r.cidr);
            } else {
                let via = self.peer_for_via(r.via_endpoint_id.as_str(), r.via_ip, net, name);
                if let Some(p) = via {
                    self.put_subnet(r.cidr, &p);
                }
            }
            i += 1;
        }
        assert(rs@.take(i as int) =~= rs@);
    }

    fn put_own_exits(&mut self, es: &[ExitNodeInfo], self_id: &str)
        requires
            old(self).wf(),
        ensures
            final(self).wf(),
            final(self).seen() == with_own_exits(old(self).seen(), es@, self_id@),
    {
        let ghost m0 = self.seen();
        let mut i: usize = 0;
        while i < es.len()
            invariant
                self.wf(),
                i <= es@.len(),
                m0 == old(self).seen(),
                self.seen() == with_own_exits(m0, es@.take(i as int), self_id@),
            decreases es.len() - i,
        {
            proof {
                assert(es@.take(i + 1).drop_last() =~= es@.take(i as int));
            }
            let e = &es[i];
            if same_text(e.endpoint_id.as_str(), self_id) {
                let ghost m1 = self.seen();
                let ghost a1 = self.t.advertised@;
                let mut j: usize = 0;
                while j < e.allowed_cidrs.len()
                    invariant
                        self.wf(),
                        j <= e.allowed_cidrs@.len(),
                        self.seen() == (Making {
                            t: TablesView {
                                advertised: a1 + e.allowed_cidrs@.take(j as int),
                                ..m1.t
                            },
                            ..m1
                        }),
                    decreases e.allowed_cidrs.len() - j,
                {
                    let ghost before = self.t.advertised@;
                    self.t.advertised.push(e.allowed_cidrs[j]);
                    j += 1;
                    assert(self.t.advertised@ =~= a1 + e.allowed_cidrs@.take(j as int));
                }
                assert(e.allowed_cidrs@.take(j as int) =~= e.allowed_cidrs@);
            }
            i += 1;
        }
        assert(es@.take(i as int) =~= es@);
    }

    /// Whether some subnet has exactly this block.
    fn has_subnet(&self, c: Ipv4Net) -> (b: bool)
        ensures
            b == has_block(self.seen().t.subnets, c),
    {
        let ghost s = self.t@.subnets;
        let mut i: usize = 0;
        while i < self.t.subnets.len()
            invariant
                i <= self.t.subnets@.len(),
                s == subnets_seen(self.t.subnets@),
                forall|j: int| 0 <= j < i ==> (#[trigger] s[j]).0 != c,
            decreases self.t.subnets.len() - i,
        {
            assert(s[i as int].0 == self.t.subnets@[i as int].0);
            if self.t.subnets[i].0 == c {
                return true;
            }
            i += 1;
        }
        false
    }

    fn put_exit_blocks(&mut self, cidrs: &[Ipv4Net], peer: &Arc<PeerInfo>)
        requires
            old(self).wf(),
        ensures
            final(self).wf(),
            final(self).seen() == (Making {
                t: TablesView {
                    subnets: with_exit_blocks(old(self).seen().t.subnets, cidrs@, (**peer)@),
                    ..old(self).seen().t
                },
                ..old(self).seen()
            }),
    {
        let ghost m0 = self.seen();
        let mut i: usize = 0;
        while i < cidrs.len()
            invariant
                self.wf(),
                i <= cidrs@.len(),
                m0 == old(self).seen(),
                self.seen() == (Making {
                    t: TablesView {
                        subnets: with_exit_blocks(
                            m0.t.subnets,
                            cidrs@.take(i as int),
                            (**peer)@,
                        ),
                        ..m0.t
                    },
                    ..m0
                }),
            decreases cidrs.len() - i,
        {
            proof {
                assert(cidrs@.take(i + 1).drop_last() =~= cidrs@.take(i as int));
            }
            if !self.has_subnet(cidrs[i]) {
                self.put_subnet(cidrs[i], peer);
            }
            i += 1;
        }
        assert(cidrs@.take(i as int) =~= cidrs@);
    }

    fn put_chosen_exit(
        &mut self,
        chosen: &Option<String>,
        es: &[ExitNodeInfo],
        net: u128,
        name: &str,
    )
        requires
            old(self).wf(),
        ensures
            final(self).wf(),
            final(self).seen() == with_chosen_exit(
                old(self).seen(),
                text_of(*chosen),
                es@,
                net,
                name@,
            ),
    {
        if let Some(id) = chosen {
            if let Some(at) = find_exit(es, id.as_str()) {
                let e = &es[at];
                let via = self.peer_for_via(id.as_str(), e.via_ip, net, name);
                if let Some(p) = via {
                    self.put_exit_blocks(e.allowed_cidrs.as_slice(), &p);
                    if self.t.exit_node.is_none() {
                        self.t.exit_node = Some(p);
                    }
                }
            }
        }
    }

    fn put_wildcard(&mut self, info: Arc<HostnameRouteInfo>)
        requires
            old(self).wf(),
        ensures
            final(self).wf(),
            final(self).seen() == (Making {
                t: TablesView {
                    hostname_wildcards: with_wildcard(
                        old(self).seen().t.hostname_wildcards,
                        (*info)@,
                    ),
                    ..old(self).seen().t
                },
                ..old(self).seen()
            }),
    {
        let ghost s = self.t@.hostname_wildcards;
        let ghost e = (*info)@;
        let len: usize = info.hostname.as_str().as_bytes().len();
        let mut i: usize = 0;
        while i < self.t.hostname_wildcards.len()
            && self.t.hostname_wildcards[i].hostname.as_str().as_bytes().len() >= len
            invariant
                len == encode_utf8(e.hostname).len(),
                i <= self.t.hostname_wildcards@.len(),
                s == route_list_seen(self.t.hostname_wildcards@),
                forall|j: int| 0 <= j < i ==> encode_utf8((#[trigger] s[j]).hostname).len() >= len,
            decreases self.t.hostname_wildcards.len() - i,
        {
            assert(s[i as int] == (*self.t.hostname_wildcards@[i as int])@);
            i += 1;
        }
        proof {
            if i < s.len() {
                assert(s[i as int] == (*self.t.hostname_wildcards@[i as int])@);
            }
            lemma_with_wildcard(s, e, i as int);
        }
        self.t.hostname_wildcards.insert(i, info);
        assert(self.t@.hostname_wildcards =~= s.insert(i as int, e));
    }

    fn put_hostname(&mut self, r: &HostnameRoute, net: u128, name: &str, self_id: &str)
        requires
            old(self).wf(),
        ensures
            final(self).wf(),
            final(self).seen() == with_hostname(old(self).seen(), *r, net, name@, self_id@),
    {
        let host = to_lower(r.hostname.as_str());
        let via = self.peer_for_via(r.via_endpoint_id.as_str(), r.via_ip, net, name);
        if let Some(p) = via {
            let info = Arc::new(
                HostnameRouteInfo {
                    peer: share(&p),
                    is_wildcard: r.is_wildcard,
                    target_ip: r.target_ip,
                    hostname: host.clone(),
                },
            );
            if same_text(r.via_endpoint_id.as_str(), self_id) {
                let ghost before = self.t@.advertised_hostnames;
                let ghost v = (*info)@;
                self.t.advertised_hostnames.push(info);
                assert(self.t@.advertised_hostnames =~= before.push(v));
            } else if !r.is_wildcard {
                let synth: u32 = synthetic_ip_for(host.as_str());
                self.put_by_ip(synth, &p);
                proof {
                    lemma_routes_insert(self.t.hostname_exact@, host@, info);
                    assert(hosts_seen(self.t.synthetic_hosts@.insert(synth, host)) =~= hosts_seen(
                        self.t.synthetic_hosts@,
                    ).insert(synth, host@));
                }
                self.t.synthetic_hosts.insert(synth, host.clone());
                self.t.hostname_exact.insert(host, info);
            } else {
                self.put_wildcard(info);
            }
        }
    }

    fn put_hostnames(&mut self, rs: &[HostnameRoute], net: u128, name: &str, self_id: &str)
        requires
            old(self).wf(),
        ensures
            final(self).wf(),
            final(self).seen() == with_hostnames(old(self).seen(), rs@, net, name@, self_id@),
    {
        let ghost m0 = self.seen();
        let mut i: usize = 0;
        while i < rs.len()
            invariant
                self.wf(),
                i <= rs@.len(),
                m0 == old(self).seen(),
                self.seen() == with_hostnames(m0, rs@.take(i as int), net, name@, self_id@),
            decreases rs.len() - i,
        {
            proof {
                assert(rs@.take(i + 1).drop_last() =~= rs@.take(i as int));
            }
            self.put_hostname(&rs[i], net, name, self_id);
            i += 1;
        }
        assert(rs@.take(i as int) =~= rs@);
    }
}

proof fn lemma_with_subnet(s: Seq<(Ipv4Net, PeerView)>, e: (Ipv4Net, PeerView), i: int)
    requires
        0 <= i <= s.len(),
        forall|j: int| 0 <= j < i ==> (#[trigger] s[j]).0.prefix >= e.0.prefix,
        i < s.len() ==> s[i].0.prefix < e.0.prefix,
    ensures
        with_subnet(s, e) == s.insert(i, e),
    decreases s.len(),
{
    if i > 0 {
        assert(s[0].0.prefix >= e.0.prefix);
        let t = s.drop_first();
        assert forall|j: int| 0 <= j < i - 1 implies (#[trigger] t[j]).0.prefix >= e.0.prefix by {
            assert(s[j + 1].0.prefix >= e.0.prefix);
        }
        lemma_with_subnet(t, e, i - 1);
    }
    assert(with_subnet(s, e) =~= s.insert(i, e));
}

proof fn lemma_with_wildcard(s: Seq<RouteView>, e: RouteView, i: int)
    requires
        0 <= i <= s.len(),
        forall|j: int|
            0 <= j < i ==> encode_utf8((#[trigger] s[j]).hostname).len() >= encode_utf8(
                e.hostname,
            ).len(),
        i < s.len() ==> encode_utf8(s[i].hostname).len() < encode_utf8(e.hostname).len(),
    ensures
        with_wildcard(s, e) == s.insert(i, e),
    decreases s.len(),
{
    if i > 0 {
        assert(encode_utf8(s[0].hostname).len() >= encode_utf8(e.hostname).len());
        let t = s.drop_first();
        assert forall|j: int| 0 <= j < i - 1 implies encode_utf8((#[trigger] t[j]).hostname).len()
            >= encode_utf8(e.hostname).len() by {
            assert(encode_utf8(s[j + 1].hostname).len() >= encode_utf8(e.hostname).len());
        }
        lemma_with_wildcard(t, e, i - 1);
    }
    assert(with_wildcard(s, e) =~= s.insert(i, e));
}

/// The place of the first exit node with the given endpoint.
fn find_exit(es: &[ExitNodeInfo], id: &str) -> (r: Option<usize>)
    ensures
        r is Some == exit_named(es@, id@) is Some,
        r matches Some(i) ==> i < es@.len() && exit_named(es@, id@) == Some(es@[i as int]),
{
    let mut i: usize = 0;
    assert(es@.skip(0) =~= es@);
    while i < es.len()
        invariant
            i <= es@.len(),
            exit_named(es@, id@) == exit_named(es@.skip(i as int), id@),
        decreases es.len() - i,
    {
        proof {
            assert(es@.skip(i as int)[0] == es@[i as int]);
            assert(es@.skip(i as int).drop_first() =~= es@.skip(i + 1));
        }
        if same_text(es[i].endpoint_id.as_str(), id) {
            return Some(i);
        }
        i += 1;
    }
    None
}

/// The tables of the networks, which stand in the order in which they were joined.
pub fn build_tables(
    slices: &[(u128, NetworkSlice)],
    ov: &dashmap::DashMap<(u128, String), u32>,
    version: u64,
) -> (t: Tables)
    ensures
        t.wf(),
        t@ == tables_of(slices@, overrides_of(*ov), version),
{
    let mut t = Tables::new(version);
    let mut i: usize = 0;
    while i < slices.len()
        invariant
            t.wf(),
            i <= slices@.len(),
            t@ == tables_of(slices@.take(i as int), overrides_of(*ov), version),
        decreases slices.len() - i,
    {
        proof {
            assert(slices@.take(i + 1).drop_last() =~= slices@.take(i as int));
        }
        let net: u128 = slices[i].0;
        t = add_slice(t, net, &slices[i].1, ov);
        i += 1;
    }
    assert(slices@.take(i as int) =~= slices@);
    t
}

fn add_slice(
    mut t: Tables,
    net: u128,
    s: &NetworkSlice,
    ov: &dashmap::DashMap<(u128, String), u32>,
) -> (r: Tables)
    requires
        t.wf(),
    ensures
        r.wf(),
        r@ == with_slice(t@, net, *s, overrides_of(*ov)),
{
    if t.network_name.as_str().is_empty() {
        t.network_name = s.network_name.clone();
    }
    t.dns_suffix = s.dns.suffix.clone();
    t.magic_ip = s.dns.magic_ip;
    let mut m = Maker { t, local: NameTable::new() };
    assert(m.seen().local =~= Map::<Seq<char>, PeerView>::empty());
    let name = s.network_name.as_str();
    let id = s.self_endpoint_id.as_str();
    m.put_peers(s.peers.as_slice(), net, name, ov);
    m.put_routes(s.subnet_routes.as_slice(), net, name, id);
    m.put_own_exits(s.exit_nodes.as_slice(), id);
    m.put_chosen_exit(&s.profile.exit_node_endpoint_id, s.exit_nodes.as_slice(), net, name);
    m.put_hostnames(s.hostname_routes.as_slice(), net, name, id);
    m.t
}

} // verus!
