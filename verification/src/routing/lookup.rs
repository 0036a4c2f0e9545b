//! What the routing tables answer.

use super::model::{qualified, synthetic, TablesView};
use super::types::{Ipv4Net, PeerInfo, PeerView, RouteView};
use crate::text::{dotted, lowered, without_dots, without_suffix};
use std::sync::Arc;
use vstd::prelude::*;

verus! {

/// The shared peer is the one that the model speaks of.
pub open spec fn is_peer(r: Option<Arc<PeerInfo>>, v: Option<PeerView>) -> bool {
    match (r, v) {
        (Some(p), Some(w)) => (*p)@ == w,
        (None, None) => true,
        _ => false,
    }
}

/// Loopback, link-local, broadcast or unspecified: never sent to an exit node.
pub open spec fn stays_local(ip: u32) -> bool {
    ip >> 24 == 127 || ip >> 16 == 0xa9fe || ip == 0xffff_ffff || ip == 0
}

/// The first subnet that holds the address.
pub open spec fn first_spanning(s: Seq<(Ipv4Net, PeerView)>, ip: u32) -> Option<PeerView>
    decreases s.len(),
{
    if s.len() == 0 {
        None
    } else if s[0].0.spans(ip) {
        Some(s[0].1)
    } else {
        first_spanning(s.drop_first(), ip)
    }
}

/// Who carries packets for an address: the peer that has it, else the gateway of a name
/// whose synthetic address it is, else the narrowest subnet, else the exit node.
pub open spec fn carrier(t: TablesView, synths: Map<u32, Arc<PeerInfo>>, ip: u32) -> Option<
    PeerView,
> {
    if t.by_ip.dom().contains(ip) {
        Some(t.by_ip[ip])
    } else if synths.dom().contains(ip) {
        Some((*synths[ip])@)
    } else if first_spanning(t.subnets, ip) is Some {
        first_spanning(t.subnets, ip)
    } else if !stays_local(ip) {
        t.exit_node
    } else {
        None
    }
}

/// The name is the suffix, or lies under it.
pub open spec fn under(host: Seq<char>, suffix: Seq<char>) -> bool {
    host == suffix || (without_suffix(host, suffix) matches Some(rest) && rest.len() > 0
        && rest.last() == '.')
}

/// The first wildcard that covers the name.
pub open spec fn first_wildcard(s: Seq<RouteView>, host: Seq<char>) -> Option<RouteView>
    decreases s.len(),
{
    if s.len() == 0 {
        None
    } else if under(host, s[0].hostname) {
        Some(s[0])
    } else {
        first_wildcard(s.drop_first(), host)
    }
}

/// The hostname route of a lower-case name: the exact one, else the longest wildcard.
pub open spec fn route_of(t: TablesView, host: Seq<char>) -> Option<RouteView> {
    if t.hostname_exact.dom().contains(host) {
        Some(t.hostname_exact[host])
    } else {
        first_wildcard(t.hostname_wildcards, host)
    }
}

/// The peer of a lower-case name: a member, else the gateway of its route.
pub open spec fn peer_named(t: TablesView, host: Seq<char>) -> Option<PeerView> {
    if t.by_hostname.dom().contains(host) {
        Some(t.by_hostname[host])
    } else {
        match route_of(t, host) {
            Some(r) => Some(r.peer),
            None => None,
        }
    }
}

/// The route is this node's own, and covers the name.
pub open spec fn covers(r: RouteView, host: Seq<char>) -> bool {
    if r.is_wildcard {
        under(host, r.hostname)
    } else {
        r.hostname == host
    }
}

pub open spec fn or_whole(s: Option<Seq<char>>, whole: Seq<char>) -> Seq<char> {
    match s {
        Some(x) => x,
        None => whole,
    }
}

/// A DNS name in lower case, without its final dots and the suffix of the mesh.
pub open spec fn bare_name(t: TablesView, name: Seq<char>) -> Seq<char> {
    let lower = lowered(without_dots(name));
    without_dots(or_whole(without_suffix(lower, dotted(Seq::empty(), t.dns_suffix)), lower))
}

/// A bare name without the name of the network.
pub open spec fn peer_part(t: TablesView, bare: Seq<char>) -> Seq<char> {
    if t.network_name.len() == 0 {
        bare
    } else {
        or_whole(without_suffix(bare, dotted(Seq::empty(), t.network_name)), bare)
    }
}

/// The bare name is the member's hostname, with or without its network.
pub open spec fn answers_to(v: PeerView, bare: Seq<char>) -> bool {
    let host = lowered(v.hostname);
    v.hostname.len() > 0 && (bare == host || bare == qualified(host, v.network_name))
}

/// A member that answers to the bare name.
pub open spec fn is_named(t: TablesView, bare: Seq<char>, k: (u128, u32)) -> bool {
    t.by_network_ip.dom().contains(k) && answers_to(t.by_network_ip[k], bare)
}

/// Some member answers to the bare name.
pub open spec fn some_named(t: TablesView, bare: Seq<char>) -> bool {
    exists|k: (u128, u32)| #[trigger] is_named(t, bare, k)
}

/// The address of a bare name that no member answers to: that of a member known by its
/// name, else the synthetic address of a hostname route.
pub open spec fn other_address(t: TablesView, bare: Seq<char>) -> Option<u32> {
    let part = peer_part(t, bare);
    if t.by_hostname.dom().contains(part) {
        Some(t.by_hostname[part].ip)
    } else if route_of(t, lowered(bare)) is Some {
        Some(synthetic(bare))
    } else if route_of(t, lowered(part)) is Some {
        Some(synthetic(part))
    } else {
        None
    }
}

/// The address that DNS gives for a name: that of a member that answers to it, whichever
/// where there are several, else as in [`other_address`].
pub open spec fn address_answer(t: TablesView, name: Seq<char>, r: Option<u32>) -> bool {
    let bare = bare_name(t, name);
    if some_named(t, bare) {
        r is Some && exists|k: (u128, u32)| #[trigger]
            is_named(t, bare, k) && t.by_network_ip[k].ip == r->Some_0
    } else {
        r == other_address(t, bare)
    }
}

/// The host key of a bare name that no member answers to.
pub open spec fn other_key(t: TablesView, bare: Seq<char>) -> Option<Seq<char>> {
    let part = peer_part(t, bare);
    if t.by_hostname.dom().contains(part) && t.by_hostname[part].ssh_host_key is Some {
        t.by_hostname[part].ssh_host_key
    } else if t.by_hostname.dom().contains(bare) {
        t.by_hostname[bare].ssh_host_key
    } else {
        None
    }
}

/// The SSH host key that DNS gives for a name.
pub open spec fn key_answer(t: TablesView, name: Seq<char>, r: Option<Seq<char>>) -> bool {
    let bare = bare_name(t, name);
    if some_named(t, bare) {
        exists|k: (u128, u32)| #[trigger]
            is_named(t, bare, k) && t.by_network_ip[k].ssh_host_key == r
    } else {
        r == other_key(t, bare)
    }
}

/// The route whose gateway is remembered when DNS gave out `ip` for `name`.
pub open spec fn remembered_route(t: TablesView, name: Seq<char>, ip: u32) -> Option<RouteView> {
    let bare = bare_name(t, name);
    let part = peer_part(t, bare);
    if route_of(t, lowered(bare)) is Some && synthetic(bare) == ip {
        route_of(t, lowered(bare))
    } else if route_of(t, lowered(part)) is Some && synthetic(part) == ip {
        route_of(t, lowered(part))
    } else {
        None
    }
}

/// The name that DNS gives for an address.
pub open spec fn name_answer(t: TablesView, ip: u32) -> Option<Seq<char>> {
    if t.by_ip.dom().contains(ip) && t.by_ip[ip].hostname.len() > 0 {
        Some(
            dotted(
                qualified(lowered(t.by_ip[ip].hostname), t.by_ip[ip].network_name),
                t.dns_suffix,
            ),
        )
    } else {
        None
    }
}

} // verus!
