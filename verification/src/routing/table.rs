//! The routing table: the networks, the tables built from them, and what DNS gave out.

use super::lookup::{
    address_answer, answers_to, bare_name, carrier, covers, first_spanning, first_wildcard,
    is_named, is_peer, key_answer, name_answer, peer_named, peer_part, remembered_route, route_of,
    some_named, stays_local, under,
};
use super::model::{tables_of, Overrides};
use super::overrides::{
    no_overrides, no_synths, override_insert, override_new, override_remove, overrides_of,
    synth_get, synth_insert, synth_len, synth_new, synths_of,
};
use super::slices::{change_members, changed, find_slice, in_join_order, put_slice, take_slice};
use super::tables::{build_tables, synthetic_ip_for, Tables};
use super::types::{
    DeviceProfile, DnsConfig, ExitNodeInfo, HostnameRoute, HostnameRouteInfo, Ipv4Net, NetworkSlice,
    PeerEntry, PeerInfo, SubnetRoute,
};
use crate::names::share;
use crate::policy::denylog::text_of;
use crate::policy::rules::texts;
use crate::pool::model::Gate;
use crate::table::map_of;
use crate::text::{
    chars_of, copy_text, drop_dots, join_dotted, lower_chars, lowered, same_chars, same_text,
    string_of, strip_suffix, substring, to_lower,
};
use std::sync::Arc;
use vstd::prelude::*;
use vstd::string::*;

verus! {

broadcast use vstd::std_specs::hash::group_hash_axioms;

pub struct RoutingTable {
    pub tables: Tables,
    /// Synthetic IPs created at DNS resolve time (esp. wildcard hostname routes).
    pub dynamic_synth: dashmap::DashMap<u32, Arc<PeerInfo>>,
    /// The networks, in the order in which they were joined.
    pub slices: Vec<(u128, NetworkSlice)>,
    /// Manual IP overrides: (network, hostname or endpoint in lower case) to address.
    pub overrides: dashmap::DashMap<(u128, String), u32>,
}

/// The version of tables that are rebuilt without a new one.
pub open spec fn next_version(v: u64) -> u64 {
    if v == u64::MAX {
        v
    } else {
        (v + 1) as u64
    }
}

/// A count, as far as it fits.
pub open spec fn at_most(n: nat) -> usize {
    if n > usize::MAX {
        usize::MAX
    } else {
        n as usize
    }
}

impl Default for RoutingTable {
    fn default() -> (t: Self)
        ensures
            t.wf(),
            t.networks() == Map::<u128, NetworkSlice>::empty(),
            t.tables.version == 0,
    {
        RoutingTable::new()
    }
}

fn is_mesh_or_link_local(ip: u32) -> (b: bool)
    ensures
        b == stays_local(ip),
{
    ip >> 24 == 127 || ip >> 16 == 0xa9fe || ip == 0xffff_ffff || ip == 0
}

/// Whether the name is the suffix, or lies under it.
fn hostname_matches_wildcard(host: &[char], suffix: &str) -> (b: bool)
    ensures
        b == under(host@, suffix@),
{
    let s = chars_of(suffix);
    if same_chars(host, s.as_slice()) {
        return true;
    }
    match strip_suffix(host, s.as_slice()) {
        Some(n) => {
            if n > 0 {
                assert(host@.take(n as int).last() == host@[n - 1]);
                host[n - 1] == '.'
            } else {
                false
            }
        },
        None => false,
    }
}

impl RoutingTable {
    /// The tables are those of the networks.
    pub open spec fn wf(&self) -> bool {
        &&& self.tables.wf()
        &&& in_join_order(self.slices@)
        &&& self.tables@ == tables_of(self.slices@, self.manual(), self.tables.version)
    }

    pub open spec fn networks(&self) -> Map<u128, NetworkSlice> {
        map_of(self.slices@)
    }

    pub open spec fn manual(&self) -> Overrides {
        overrides_of(self.overrides)
    }

    pub open spec fn synths(&self) -> Map<u32, Arc<PeerInfo>> {
        synths_of(self.dynamic_synth)
    }

    pub fn new() -> (t: Self)
        ensures
            t.wf(),
            t.networks() == Map::<u128, NetworkSlice>::empty(),
            t.manual() == no_overrides(),
            t.synths() == no_synths(),
            t.tables.version == 0,
    {
        let t = RoutingTable {
            tables: Tables::new(0),
            dynamic_synth: synth_new(),
            slices: Vec::new(),
            overrides: override_new(),
        };
        assert(t.networks() =~= Map::<u128, NetworkSlice>::empty());
        t
    }

    fn rebuild(&mut self, version: Option<u64>)
        requires
            in_join_order(old(self).slices@),
        ensures
            final(self).wf(),
            final(self).slices == old(self).slices,
            final(self).overrides == old(self).overrides,
            final(self).dynamic_synth == old(self).dynamic_synth,
            final(self).tables.version == (match version {
                Some(v) => v,
                None => next_version(old(self).tables.version),
            }),
    {
        let v: u64 = match version {
            Some(v) => v,
            None => self.tables.version.saturating_add(1),
        };
        self.tables = build_tables(self.slices.as_slice(), &self.overrides, v);
        assert(self.tables@.version == v) by {
            lemma_version(self.slices@, self.manual(), v);
        }
    }

    /// Look up peer by (network, ip) for inbound / firewall context.
    pub fn lookup_network_ip(&self, network_id: u128, ip: u32) -> (r: Option<Arc<PeerInfo>>)
        requires
            self.wf(),
        ensures
            is_peer(
                r,
                (if self.tables@.by_network_ip.dom().contains((network_id, ip)) {
                    Some(self.tables@.by_network_ip[(network_id, ip)])
                } else {
                    None
                }),
            ),
    {
        match self.tables.by_network_ip.get(&(network_id, ip)) {
            Some(p) => Some(share(p)),
            None => None,
        }
    }

    /// Set a manual outbound IP override for a peer in a network.
    pub fn set_ip_override(&mut self, network_id: u128, peer_key: &str, ip: u32)
        requires
            old(self).wf(),
        ensures
            final(self).wf(),
            final(self).manual() == old(self).manual().insert((network_id, lowered(peer_key@)), ip),
            final(self).slices == old(self).slices,
            final(self).dynamic_synth == old(self).dynamic_synth,
            final(self).tables.version == next_version(old(self).tables.version),
    {
        override_insert(&mut self.overrides, network_id, to_lower(peer_key), ip);
        self.rebuild(None);
    }

    pub fn clear_ip_override(&mut self, network_id: u128, peer_key: &str)
        requires
            old(self).wf(),
        ensures
            final(self).wf(),
            final(self).manual() == old(self).manual().remove((network_id, lowered(peer_key@))),
            final(self).slices == old(self).slices,
            final(self).dynamic_synth == old(self).dynamic_synth,
            final(self).tables.version == next_version(old(self).tables.version),
    {
        override_remove(&mut self.overrides, network_id, to_lower(peer_key));
        self.rebuild(None);
    }

    /// The first subnet that holds the address.
    fn lookup_subnet(&self, ip: u32) -> (r: Option<Arc<PeerInfo>>)
        ensures
            is_peer(r, first_spanning(self.tables@.subnets, ip)),
    {
        let ghost s = self.tables@.subnets;
        let mut i: usize = 0;
        assert(s.skip(0) =~= s);
        while i < self.tables.subnets.len()
            invariant
                s == self.tables@.subnets,
                i <= s.len(),
                first_spanning(s, ip) == first_spanning(s.skip(i as int), ip),
            decreases self.tables.subnets.len() - i,
        {
            proof {
                assert(s.skip(i as int)[0] == s[i as int]);
                assert(s.skip(i as int).drop_first() =~= s.skip(i + 1));
            }
            let e = &self.tables.subnets[i];
            if e.0.contains(ip) {
                return Some(share(&e.1));
            }
            i += 1;
        }
        None
    }

    /// Direct peer IP, subnet LPM, then selected exit node for internet.
    /// On birthday collisions across networks, first-joined network wins.
    pub fn lookup_ip(&self, ip: u32) -> (r: Option<Arc<PeerInfo>>)
        requires
            self.wf(),
        ensures
            is_peer(r, carrier(self.tables@, self.synths(), ip)),
    {
        if let Some(p) = self.tables.by_ip.get(&ip) {
            return Some(share(p));
        }
        if let Some(p) = synth_get(&self.dynamic_synth, ip) {
            return Some(p);
        }
        if let Some(p) = self.lookup_subnet(ip) {
            return Some(p);
        }
        if !is_mesh_or_link_local(ip) {
            if let Some(p) = &self.tables.exit_node {
                return Some(share(p));
            }
        }
        None
    }

    pub fn exit_node(&self) -> (r: Option<Arc<PeerInfo>>)
        ensures
            is_peer(r, self.tables@.exit_node),
    {
        match &self.tables.exit_node {
            Some(p) => Some(share(p)),
            None => None,
        }
    }

    /// Whether this node is an exit: it advertises a default route.
    pub fn is_exit_node(&self) -> (b: bool)
        ensures
            b == exists|i: int|
                0 <= i < self.tables@.advertised.len() && (
                #[trigger] self.tables@.advertised[i]).prefix == 0,
    {
        let mut i: usize = 0;
        while i < self.tables.advertised.len()
            invariant
                i <= self.tables@.advertised.len(),
                forall|j: int|
                    0 <= j < i ==> (#[trigger] self.tables@.advertised[j]).prefix != 0,
            decreases self.tables.advertised.len() - i,
        {
            if self.tables.advertised[i].prefix == 0 {
                assert(self.tables@.advertised[i as int].prefix == 0);
                return true;
            }
            i += 1;
        }
        false
    }

    pub fn lookup_endpoint(&self, hex: &str) -> (r: Option<Arc<PeerInfo>>)
        requires
            self.wf(),
        ensures
            is_peer(
                r,
                (if self.tables@.by_endpoint.dom().contains(hex@) {
                    Some(self.tables@.by_endpoint[hex@])
                } else {
                    None
                }),
            ),
    {
        match self.tables.by_endpoint.get(hex) {
            Some(p) => Some(share(p)),
            None => None,
        }
    }

    /// What the membership gate says of a peer: members are let in, and the generation is
    /// the version of the tables.
    pub fn membership_gate(&self, hex: &str) -> (g: Gate)
        requires
            self.wf(),
        ensures
            g.allows == self.tables@.by_endpoint.dom().contains(hex@),
            g.generation == self.tables.version,
    {
        Gate { allows: self.tables.by_endpoint.contains(hex), generation: self.tables.version }
    }

    /// Peer hostname (mesh member), then hostname-route exact/wildcard.
    pub fn lookup_hostname(&self, host: &str) -> (r: Option<Arc<PeerInfo>>)
        requires
            self.wf(),
        ensures
            is_peer(r, peer_named(self.tables@, lowered(host@))),
    {
        let lower = to_lower(host);
        if let Some(p) = self.tables.by_hostname.get(lower.as_str()) {
            return Some(share(p));
        }
        match self.lookup_hostname_route(host) {
            Some(info) => Some(share(&info.peer)),
            None => None,
        }
    }

    pub fn lookup_hostname_route(&self, host: &str) -> (r: Option<Arc<HostnameRouteInfo>>)
        requires
            self.wf(),
        ensures
            r is Some == route_of(self.tables@, lowered(host@)) is Some,
            r matches Some(info) ==> route_of(self.tables@, lowered(host@)) == Some((*info)@),
    {
        let lower = to_lower(host);
        if let Some(info) = self.tables.hostname_exact.get(lower.as_str()) {
            return Some(share(info));
        }
        let name = chars_of(lower.as_str());
        let ghost s = self.tables@.hostname_wildcards;
        let ghost h = lowered(host@);
        let mut i: usize = 0;
        assert(s.skip(0) =~= s);
        while i < self.tables.hostname_wildcards.len()
            invariant
                s == self.tables@.hostname_wildcards,
                h == lowered(host@),
                name@ == h,
                i <= s.len(),
                !self.tables@.hostname_exact.dom().contains(h),
                first_wildcard(s, h) == first_wildcard(s.skip(i as int), h),
            decreases self.tables.hostname_wildcards.len() - i,
        {
            proof {
                assert(s.skip(i as int)[0] == s[i as int]);
                assert(s.skip(i as int).drop_first() =~= s.skip(i + 1));
            }
            let info = &self.tables.hostname_wildcards[i];
            if hostname_matches_wildcard(name.as_slice(), info.hostname.as_str()) {
                return Some(share(info));
            }
            i += 1;
        }
        None
    }

    /// True when this node advertises a subnet containing `ip`.
    pub fn is_advertised_destination(&self, ip: u32) -> (b: bool)
        ensures
            b == exists|i: int|
                0 <= i < self.tables@.advertised.len() && (
                #[trigger] self.tables@.advertised[i]).spans(ip),
    {
        let mut i: usize = 0;
        while i < self.tables.advertised.len()
            invariant
                i <= self.tables@.advertised.len(),
                forall|j: int|
                    0 <= j < i ==> !(#[trigger] self.tables@.advertised[j]).spans(ip),
            decreases self.tables.advertised.len() - i,
        {
            if self.tables.advertised[i].contains(ip) {
                assert(self.tables@.advertised[i as int].spans(ip));
                return true;
            }
            i += 1;
        }
        false
    }

    /// True when this node is the gateway for a hostname route matching `host`.
    pub fn is_advertised_hostname(&self, host: &str) -> (b: bool)
        ensures
            b == exists|i: int|
                0 <= i < self.tables@.advertised_hostnames.len() && covers(
                    #[trigger] self.tables@.advertised_hostnames[i],
                    lowered(host@),
                ),
    {
        let name = lower_chars(host);
        let lower = to_lower(host);
        let ghost s = self.tables@.advertised_hostnames;
        let mut i: usize = 0;
        while i < self.tables.advertised_hostnames.len()
            invariant
                s == self.tables@.advertised_hostnames,
                name@ == lowered(host@),
                lower@ == lowered(host@),
                i <= s.len(),
                forall|j: int| 0 <= j < i ==> !covers(#[trigger] s[j], lowered(host@)),
            decreases self.tables.advertised_hostnames.len() - i,
        {
            let info = &self.tables.advertised_hostnames[i];
            assert(s[i as int] == (**info)@);
            let hit = if info.is_wildcard {
                hostname_matches_wildcard(name.as_slice(), info.hostname.as_str())
            } else {
                same_text(info.hostname.as_str(), lower.as_str())
            };
            if hit {
                return true;
            }
            i += 1;
        }
        false
    }

    pub fn advertised_subnets(&self) -> (v: Vec<Ipv4Net>)
        ensures
            v@ == self.tables@.advertised,
    {
        let mut v: Vec<Ipv4Net> = Vec::new();
        let mut i: usize = 0;
        while i < self.tables.advertised.len()
            invariant
                i <= self.tables.advertised@.len(),
                v@ == self.tables.advertised@.take(i as int),
            decreases self.tables.advertised.len() - i,
        {
            v.push(self.tables.advertised[i]);
            i += 1;
            assert(v@ =~= self.tables.advertised@.take(i as int));
        }
        assert(self.tables.advertised@.take(i as int) =~= self.tables.advertised@);
        v
    }

    /// All memberships.
    pub fn peers(&self) -> (v: Vec<Arc<PeerInfo>>)
        ensures
            v@.len() == self.tables.by_network_ip.entries@.len(),
            forall|i: int|
                0 <= i < v@.len() ==> #[trigger] v@[i]
                    == self.tables.by_network_ip.entries@[i].1,
    {
        let mut v: Vec<Arc<PeerInfo>> = Vec::new();
        let mut i: usize = 0;
        while i < self.tables.by_network_ip.entries.len()
            invariant
                i <= self.tables.by_network_ip.entries@.len(),
                v@.len() == i,
                forall|j: int|
                    0 <= j < i ==> #[trigger] v@[j] == self.tables.by_network_ip.entries@[j].1,
            decreases self.tables.by_network_ip.entries.len() - i,
        {
            v.push(share(&self.tables.by_network_ip.entries[i].1));
            i += 1;
        }
        v
    }

    pub fn version(&self) -> (v: u64)
        ensures
            v == self.tables.version,
    {
        self.tables.version
    }

    pub fn dns_suffix(&self) -> (s: String)
        ensures
            s@ == self.tables@.dns_suffix,
    {
        self.tables.dns_suffix.clone()
    }

    pub fn magic_ip(&self) -> (ip: u32)
        ensures
            ip == self.tables@.magic_ip,
    {
        self.tables.magic_ip
    }

    pub fn is_magic_dns_destination(&self, ip: u32) -> (b: bool)
        ensures
            b == (ip == self.tables@.magic_ip),
    {
        ip == self.tables.magic_ip
    }

    pub fn network_name(&self) -> (s: String)
        ensures
            s@ == self.tables@.network_name,
    {
        self.tables.network_name.clone()
    }

    /// Approximate PeerDNS / route cache size.
    pub fn cached_entry_count(&self) -> (n: usize)
        requires
            self.wf(),
        ensures
            n == at_most(
                self.tables@.by_hostname.dom().len() + self.tables@.hostname_exact.dom().len()
                    + self.tables@.hostname_wildcards.len()
                    + self.tables@.synthetic_hosts.dom().len() + self.synths().dom().len(),
            ),
    {
        proof {
            assert(self.tables@.by_hostname.dom() =~= self.tables.by_hostname@.dom());
            assert(self.tables@.hostname_exact.dom() =~= self.tables.hostname_exact@.dom());
            assert(self.tables@.synthetic_hosts.dom() =~= self.tables.synthetic_hosts@.dom());
        }
        let a: usize = self.tables.by_hostname.len();
        let b: usize = a.saturating_add(self.tables.hostname_exact.len());
        let c: usize = b.saturating_add(self.tables.hostname_wildcards.len());
        let d: usize = c.saturating_add(self.tables.synthetic_hosts.len());
        d.saturating_add(synth_len(&self.dynamic_synth))
    }

    /// A DNS name without its final dots, the suffix of the mesh, and case.
    fn bare(&self, name: &str) -> (b: String)
        ensures
            b@ == bare_name(self.tables@, name@),
    {
        let mut v = chars_of(name);
        drop_dots(&mut v);
        let s = string_of(v.as_slice());
        let mut lower = lower_chars(s.as_str());
        let suffix = join_dotted("", self.tables.dns_suffix.as_str());
        let tail = chars_of(suffix.as_str());
        proof {
            reveal_strlit("");
            assert(""@ =~= Seq::<char>::empty());
        }
        if let Some(n) = strip_suffix(lower.as_slice(), tail.as_slice()) {
            lower.truncate(n);
        }
        drop_dots(&mut lower);
        string_of(lower.as_slice())
    }

    /// A bare name without the name of the network.
    fn part(&self, bare: &str) -> (b: String)
        ensures
            b@ == peer_part(self.tables@, bare@),
    {
        if self.tables.network_name.as_str().is_empty() {
            return bare.to_owned();
        }
        let v = chars_of(bare);
        let suffix = join_dotted("", self.tables.network_name.as_str());
        let tail = chars_of(suffix.as_str());
        proof {
            reveal_strlit("");
            assert(""@ =~= Seq::<char>::empty());
        }
        match strip_suffix(v.as_slice(), tail.as_slice()) {
            Some(n) => {
                assert(v@.subrange(0, n as int) =~= v@.take(n as int));
                substring(v.as_slice(), 0, n)
            },
            None => bare.to_owned(),
        }
    }

    /// A member that answers to the bare name.
    fn member_named(&self, bare: &str) -> (r: Option<Arc<PeerInfo>>)
        requires
            self.wf(),
        ensures
            r is Some == some_named(self.tables@, bare@),
            r matches Some(p) ==> exists|k: (u128, u32)| #[trigger]
                is_named(self.tables@, bare@, k) && self.tables@.by_network_ip[k] == (*p)@,
    {
        let ghost es = self.tables.by_network_ip.entries@;
        let mut i: usize = 0;
        while i < self.tables.by_network_ip.entries.len()
            invariant
                self.wf(),
                es == self.tables.by_network_ip.entries@,
                i <= es.len(),
                forall|j: int| 0 <= j < i ==> !answers_to((*(#[trigger] es[j]).1)@, bare@),
            decreases self.tables.by_network_ip.entries.len() - i,
        {
            let p = &self.tables.by_network_ip.entries[i].1;
            if !p.hostname.as_str().is_empty() {
                let host = to_lower(p.hostname.as_str());
                let fqdn = if p.network_name.as_str().is_empty() {
                    host.clone()
                } else {
                    join_dotted(host.as_str(), p.network_name.as_str())
                };
                if same_text(bare, host.as_str()) || same_text(bare, fqdn.as_str()) {
                    proof {
                        crate::table::lemma_slot(es, i as int);
                        let k = es[i as int].0;
                        assert(self.tables@.by_network_ip[k] == (**p)@);
                        assert(is_named(self.tables@, bare@, k));
                    }
                    return Some(share(p));
                }
            }
            i += 1;
        }
        proof {
            assert forall|k: (u128, u32)| !#[trigger] is_named(self.tables@, bare@, k) by {
                if is_named(self.tables@, bare@, k) {
                    let j = crate::table::slot(es, k);
                    assert(crate::table::has_key(es, k));
                    assert(!answers_to((*es[j].1)@, bare@));
                }
            }
        }
        None
    }

    /// Resolve a PeerDNS name to an advertised SSH host pubkey (TXT).
    pub fn resolve_dns_txt(&self, name: &str) -> (r: Option<String>)
        requires
            self.wf(),
        ensures
            key_answer(self.tables@, name@, text_of(r)),
    {
        let bare = self.bare(name);
        if let Some(p) = self.member_named(bare.as_str()) {
            return copy_text(&p.ssh_host_key);
        }
        let part = self.part(bare.as_str());
        if let Some(p) = self.tables.by_hostname.get(part.as_str()) {
            if p.ssh_host_key.is_some() {
                return copy_text(&p.ssh_host_key);
            }
        }
        match self.tables.by_hostname.get(bare.as_str()) {
            Some(p) => copy_text(&p.ssh_host_key),
            None => None,
        }
    }

    /// Resolve a PeerDNS name to an IPv4 address (peer mesh IP or synthetic). For
    /// wildcard hostname routes the caller should [`Self::remember_dns_synth`] so
    /// dataplane lookup works.
    pub fn resolve_dns_a(&self, name: &str) -> (r: Option<u32>)
        requires
            self.wf(),
        ensures
            address_answer(self.tables@, name@, r),
    {
        let bare = self.bare(name);
        if let Some(p) = self.member_named(bare.as_str()) {
            return Some(p.ip);
        }
        let part = self.part(bare.as_str());
        if let Some(p) = self.tables.by_hostname.get(part.as_str()) {
            return Some(p.ip);
        }
        if self.lookup_hostname_route(bare.as_str()).is_some() {
            return Some(synthetic_ip_for(bare.as_str()));
        }
        if self.lookup_hostname_route(part.as_str()).is_some() {
            return Some(synthetic_ip_for(part.as_str()));
        }
        None
    }

    /// The gateway to remember for an address that DNS gave out.
    fn gateway_of_synth(&self, name: &str, ip: u32) -> (r: Option<Arc<PeerInfo>>)
        requires
            self.wf(),
        ensures
            is_peer(
                r,
                match remembered_route(self.tables@, name@, ip) {
                    Some(route) => Some(route.peer),
                    None => None,
                },
            ),
    {
        let bare = self.bare(name);
        if let Some(info) = self.lookup_hostname_route(bare.as_str()) {
            if synthetic_ip_for(bare.as_str()) == ip {
                return Some(share(&info.peer));
            }
        }
        let part = self.part(bare.as_str());
        if let Some(info) = self.lookup_hostname_route(part.as_str()) {
            if synthetic_ip_for(part.as_str()) == ip {
                return Some(share(&info.peer));
            }
        }
        None
    }

    /// Cache a synthetic IP → peer mapping for a hostname (wildcard routes). It survives
    /// every rebuild of the tables.
    pub fn remember_dns_synth(&mut self, name: &str, ip: u32)
        requires
            old(self).wf(),
        ensures
            final(self).wf(),
            final(self).tables == old(self).tables,
            final(self).slices == old(self).slices,
            final(self).overrides == old(self).overrides,
            remembered_route(old(self).tables@, name@, ip) is None ==> final(self).synths()
                == old(self).synths(),
            remembered_route(old(self).tables@, name@, ip) matches Some(route) ==> final(
                self
            ).synths() == old(self).synths().insert(ip, final(self).synths()[ip])
                && (*final(self).synths()[ip])@ == route.peer,
    {
        if let Some(p) = self.gateway_of_synth(name, ip) {
            synth_insert(&mut self.dynamic_synth, ip, p);
        }
    }

    /// Reverse lookup: mesh IP → `hostname[.network].suffix`.
    pub fn resolve_dns_ptr(&self, ip: u32) -> (r: Option<String>)
        ensures
            text_of(r) == name_answer(self.tables@, ip),
    {
        match self.tables.by_ip.get(&ip) {
            None => None,
            Some(p) => {
                if p.hostname.as_str().is_empty() {
                    return None;
                }
                let host = to_lower(p.hostname.as_str());
                let full = if p.network_name.as_str().is_empty() {
                    host
                } else {
                    join_dotted(host.as_str(), p.network_name.as_str())
                };
                Some(join_dotted(full.as_str(), self.tables.dns_suffix.as_str()))
            },
        }
    }

    /// Full table replace (Managed / single-network). Clears other network slices.
    pub fn replace(
        &mut self,
        peers: Vec<PeerEntry>,
        subnet_routes: Vec<SubnetRoute>,
        hostname_routes: Vec<HostnameRoute>,
        exit_nodes: Vec<ExitNodeInfo>,
        profile: DeviceProfile,
        dns: DnsConfig,
        network_name: &str,
        network_id: u128,
        self_endpoint_id: &str,
        version: u64,
    )
        requires
            old(self).wf(),
        ensures
            final(self).wf(),
            final(self).tables.version == version,
            final(self).networks().dom() == set![network_id],
            ({
                let s = final(self).networks()[network_id];
                &&& s.peers == peers
                &&& s.subnet_routes == subnet_routes
                &&& s.hostname_routes == hostname_routes
                &&& s.exit_nodes == exit_nodes
                &&& s.profile == profile
                &&& s.dns == dns
                &&& s.network_name@ == lowered(network_name@)
                &&& s.self_endpoint_id@ == self_endpoint_id@
                &&& s.join_index == 0
            }),
            final(self).overrides == old(self).overrides,
            final(self).dynamic_synth == old(self).dynamic_synth,
    {
        self.slices.clear();
        let ghost none = self.networks();
        assert(none =~= Map::<u128, NetworkSlice>::empty());
        put_slice(
            &mut self.slices,
            network_id,
            NetworkSlice {
                peers,
                subnet_routes,
                hostname_routes,
                exit_nodes,
                profile,
                dns,
                network_name: to_lower(network_name),
                self_endpoint_id: self_endpoint_id.to_owned(),
                join_index: 0,
            },
        );
        assert(self.networks().dom() =~= set![network_id]);
        self.rebuild(Some(version));
    }

    /// Replace peers for one Direct network; other networks kept. First-joined wins outbound.
    pub fn replace_network(
        &mut self,
        network_id: u128,
        join_index: u64,
        peers: Vec<PeerEntry>,
        dns: DnsConfig,
        network_name: &str,
        self_endpoint_id: &str,
        version: u64,
    )
        requires
            old(self).wf(),
        ensures
            final(self).wf(),
            final(self).tables.version == version,
            final(self).networks() == old(self).networks().insert(
                network_id,
                final(self).networks()[network_id],
            ),
            ({
                let s = final(self).networks()[network_id];
                &&& s.peers == peers
                &&& s.subnet_routes@.len() == 0
                &&& s.hostname_routes@.len() == 0
                &&& s.exit_nodes@.len() == 0
                &&& s.profile.exit_node_endpoint_id is None
                &&& s.dns == dns
                &&& s.network_name@ == lowered(network_name@)
                &&& s.self_endpoint_id@ == self_endpoint_id@
                &&& s.join_index == join_index
            }),
            final(self).overrides == old(self).overrides,
            final(self).dynamic_synth == old(self).dynamic_synth,
    {
        put_slice(
            &mut self.slices,
            network_id,
            NetworkSlice {
                peers,
                subnet_routes: Vec::new(),
                hostname_routes: Vec::new(),
                exit_nodes: Vec::new(),
                profile: DeviceProfile::default(),
                dns,
                network_name: to_lower(network_name),
                self_endpoint_id: self_endpoint_id.to_owned(),
                join_index,
            },
        );
        self.rebuild(Some(version));
    }

    pub fn remove_network(&mut self, network_id: u128)
        requires
            old(self).wf(),
        ensures
            final(self).wf(),
            final(self).networks() == old(self).networks().remove(network_id),
            final(self).tables.version == next_version(old(self).tables.version),
            final(self).overrides == old(self).overrides,
            final(self).dynamic_synth == old(self).dynamic_synth,
    {
        take_slice(&mut self.slices, network_id);
        self.rebuild(None);
    }

    /// Apply a peer membership delta for one network without replacing routes/policy.
    /// Nothing changes for a network that is not known.
    pub fn apply_peer_delta(
        &mut self,
        network_id: u128,
        added: Vec<PeerEntry>,
        removed: &[String],
        version: u64,
        self_endpoint_id: &str,
        network_name: &str,
    )
        requires
            old(self).wf(),
        ensures
            final(self).wf(),
            final(self).overrides == old(self).overrides,
            final(self).dynamic_synth == old(self).dynamic_synth,
            !old(self).networks().dom().contains(network_id) ==> *final(self) == *old(self),
            old(self).networks().dom().contains(network_id) ==> {
                let s = old(self).networks()[network_id];
                let n = final(self).networks()[network_id];
                &&& final(self).networks() == old(self).networks().insert(network_id, n)
                &&& final(self).tables.version == version
                &&& n.peers@ == changed(s.peers@, added@, texts(removed@), self_endpoint_id@)
                &&& n.network_name@ == (if network_name@.len() > 0 {
                    lowered(network_name@)
                } else {
                    s.network_name@
                })
                &&& (NetworkSlice { peers: s.peers, network_name: s.network_name, ..n }) == s
            },
    {
        if find_slice(self.slices.as_slice(), network_id).is_none() {
            return;
        }
        let ghost was = self.networks();
        match take_slice(&mut self.slices, network_id) {
            None => {},
            Some(mut slice) => {
                if !network_name.is_empty() {
                    slice.network_name = to_lower(network_name);
                }
                change_members(&mut slice.peers, added, removed, self_endpoint_id);
                let ghost n = slice;
                put_slice(&mut self.slices, network_id, slice);
                assert(was.remove(network_id).insert(network_id, n) =~= was.insert(network_id, n));
                self.rebuild(Some(version));
            },
        }
    }
}

proof fn lemma_version(slices: Seq<(u128, NetworkSlice)>, ov: Overrides, v: u64)
    ensures
        tables_of(slices, ov, v).version == v,
    decreases slices.len(),
{
    if slices.len() > 0 {
        lemma_version(slices.drop_last(), ov, v);
        super::laws::lemma_slice_keeps_version(
            tables_of(slices.drop_last(), ov, v),
            slices.last().0,
            slices.last().1,
            ov,
        );
    }
}

} // verus!
