//! What holds of routing as a whole.

use super::lookup::{
    address_answer, bare_name, carrier, first_spanning, first_wildcard, peer_part, remembered_route,
    route_of, some_named, stays_local, under,
};
use super::model::{
    exit_named, gateway, synthetic, tables_of, with_chosen_exit, with_exit_blocks, with_hostnames,
    with_own_exits, with_peers, with_route, with_routes, with_slice, with_subnet, with_wildcard,
    Making, Overrides, TablesView,
};
use super::slices::{changed, place_of, stays, with_member, with_members};
use super::types::{
    ExitNodeInfo, HostnameRoute, Ipv4Net, NetworkSlice, PeerEntry, PeerInfo, PeerView, RouteView,
    SubnetRoute,
};
use crate::policy::denylog::text_of;
use crate::text::lowered;
use std::sync::Arc;
use vstd::prelude::*;
use vstd::utf8::encode_utf8;

verus! {

proof fn lemma_peers_keep_version(
    m: Making,
    ps: Seq<PeerEntry>,
    net: u128,
    name: Seq<char>,
    ov: Overrides,
)
    ensures
        with_peers(m, ps, net, name, ov).t.version == m.t.version,
    decreases ps.len(),
{
    if ps.len() > 0 {
        lemma_peers_keep_version(m, ps.drop_last(), net, name, ov);
    }
}

proof fn lemma_routes_keep_version(
    m: Making,
    rs: Seq<SubnetRoute>,
    net: u128,
    name: Seq<char>,
    id: Seq<char>,
)
    ensures
        with_routes(m, rs, net, name, id).t.version == m.t.version,
    decreases rs.len(),
{
    if rs.len() > 0 {
        lemma_routes_keep_version(m, rs.drop_last(), net, name, id);
    }
}

proof fn lemma_exits_keep_version(m: Making, es: Seq<ExitNodeInfo>, id: Seq<char>)
    ensures
        with_own_exits(m, es, id).t.version == m.t.version,
    decreases es.len(),
{
    if es.len() > 0 {
        lemma_exits_keep_version(m, es.drop_last(), id);
    }
}

proof fn lemma_hostnames_keep_version(
    m: Making,
    rs: Seq<HostnameRoute>,
    net: u128,
    name: Seq<char>,
    id: Seq<char>,
)
    ensures
        with_hostnames(m, rs, net, name, id).t.version == m.t.version,
    decreases rs.len(),
{
    if rs.len() > 0 {
        lemma_hostnames_keep_version(m, rs.drop_last(), net, name, id);
    }
}

pub proof fn lemma_slice_keeps_version(t: TablesView, net: u128, s: NetworkSlice, ov: Overrides)
    ensures
        with_slice(t, net, s, ov).version == t.version,
{
    let name = s.network_name@;
    let id = s.self_endpoint_id@;
    let t0 = TablesView {
        network_name: if t.network_name.len() == 0 {
            name
        } else {
            t.network_name
        },
        dns_suffix: s.dns.suffix@,
        magic_ip: s.dns.magic_ip,
        ..t
    };
    let m0 = Making { t: t0, local: Map::empty() };
    lemma_peers_keep_version(m0, s.peers@, net, name, ov);
    let m1 = with_peers(m0, s.peers@, net, name, ov);
    lemma_routes_keep_version(m1, s.subnet_routes@, net, name, id);
    let m2 = with_routes(m1, s.subnet_routes@, net, name, id);
    lemma_exits_keep_version(m2, s.exit_nodes@, id);
    let m3 = with_own_exits(m2, s.exit_nodes@, id);
    let m4 = with_chosen_exit(
        m3,
        text_of(s.profile.exit_node_endpoint_id),
        s.exit_nodes@,
        net,
        name,
    );
    lemma_hostnames_keep_version(m4, s.hostname_routes@, net, name, id);
}

/// Narrow blocks stand before wide ones.
pub open spec fn narrow_first(s: Seq<(Ipv4Net, PeerView)>) -> bool {
    forall|i: int, j: int|
        #![trigger s[i], s[j]]
        0 <= i < j < s.len() ==> s[i].0.prefix >= s[j].0.prefix
}

proof fn lemma_with_subnet_narrow(s: Seq<(Ipv4Net, PeerView)>, e: (Ipv4Net, PeerView))
    requires
        narrow_first(s),
    ensures
        narrow_first(with_subnet(s, e)),
        forall|i: int|
            0 <= i < with_subnet(s, e).len() ==> s.contains(#[trigger] with_subnet(s, e)[i])
                || with_subnet(s, e)[i] == e,
    decreases s.len(),
{
    let r = with_subnet(s, e);
    if s.len() == 0 || s[0].0.prefix < e.0.prefix {
        assert forall|i: int, j: int| #![trigger r[i], r[j]] 0 <= i < j < r.len() implies r[i].0.prefix
            >= r[j].0.prefix by {
            assert(r[j] == s[j - 1]);
            if i > 0 {
                assert(r[i] == s[i - 1]);
            } else if j > 1 {
                assert(s[0].0.prefix >= s[j - 1].0.prefix);
            }
        }
        assert forall|i: int| 0 <= i < r.len() implies s.contains(#[trigger] r[i]) || r[i] == e by {
            if i > 0 {
                assert(r[i] == s[i - 1]);
            }
        }
    } else {
        let t = s.drop_first();
        assert(narrow_first(t)) by {
            assert forall|i: int, j: int|
                #![trigger t[i], t[j]]
                0 <= i < j < t.len() implies t[i].0.prefix >= t[j].0.prefix by {
                assert(s[i + 1].0.prefix >= s[j + 1].0.prefix);
            }
        }
        lemma_with_subnet_narrow(t, e);
        let q = with_subnet(t, e);
        assert forall|i: int, j: int| #![trigger r[i], r[j]] 0 <= i < j < r.len() implies r[i].0.prefix
            >= r[j].0.prefix by {
            assert(r[j] == q[j - 1]);
            if i > 0 {
                assert(r[i] == q[i - 1]);
            } else if t.contains(q[j - 1]) {
                let k = choose|k: int| 0 <= k < t.len() && t[k] == q[j - 1];
                assert(s[0].0.prefix >= s[k + 1].0.prefix);
            }
        }
        assert forall|i: int| 0 <= i < r.len() implies s.contains(#[trigger] r[i]) || r[i] == e by {
            if i > 0 {
                assert(r[i] == q[i - 1]);
                if t.contains(q[i - 1]) {
                    let k = choose|k: int| 0 <= k < t.len() && t[k] == q[i - 1];
                    assert(s[k + 1] == r[i]);
                }
            } else {
                assert(s[0] == r[0]);
            }
        }
    }
}

proof fn lemma_exit_blocks_narrow(s: Seq<(Ipv4Net, PeerView)>, cidrs: Seq<Ipv4Net>, v: PeerView)
    requires
        narrow_first(s),
    ensures
        narrow_first(with_exit_blocks(s, cidrs, v)),
    decreases cidrs.len(),
{
    if cidrs.len() > 0 {
        lemma_exit_blocks_narrow(s, cidrs.drop_last(), v);
        lemma_with_subnet_narrow(with_exit_blocks(s, cidrs.drop_last(), v), (cidrs.last(), v));
    }
}

/// Long suffixes stand before short ones.
pub open spec fn long_first(s: Seq<RouteView>) -> bool {
    forall|i: int, j: int|
        #![trigger s[i], s[j]]
        0 <= i < j < s.len() ==> encode_utf8(s[i].hostname).len() >= encode_utf8(
            s[j].hostname,
        ).len()
}

proof fn lemma_with_wildcard_long(s: Seq<RouteView>, e: RouteView)
    requires
        long_first(s),
    ensures
        long_first(with_wildcard(s, e)),
        forall|i: int|
            0 <= i < with_wildcard(s, e).len() ==> s.contains(#[trigger] with_wildcard(s, e)[i])
                || with_wildcard(s, e)[i] == e,
    decreases s.len(),
{
    let r = with_wildcard(s, e);
    if s.len() == 0 || encode_utf8(s[0].hostname).len() < encode_utf8(e.hostname).len() {
        assert forall|i: int, j: int| #![trigger r[i], r[j]] 0 <= i < j < r.len() implies encode_utf8(
            r[i].hostname,
        ).len() >= encode_utf8(r[j].hostname).len() by {
            assert(r[j] == s[j - 1]);
            if i > 0 {
                assert(r[i] == s[i - 1]);
            } else if j > 1 {
                assert(encode_utf8(s[0].hostname).len() >= encode_utf8(s[j - 1].hostname).len());
            }
        }
        assert forall|i: int| 0 <= i < r.len() implies s.contains(#[trigger] r[i]) || r[i] == e by {
            if i > 0 {
                assert(r[i] == s[i - 1]);
            }
        }
    } else {
        let t = s.drop_first();
        assert(long_first(t)) by {
            assert forall|i: int, j: int|
                #![trigger t[i], t[j]]
                0 <= i < j < t.len() implies encode_utf8(t[i].hostname).len() >= encode_utf8(
                t[j].hostname,
            ).len() by {
                assert(encode_utf8(s[i + 1].hostname).len() >= encode_utf8(
                    s[j + 1].hostname,
                ).len());
            }
        }
        lemma_with_wildcard_long(t, e);
        let q = with_wildcard(t, e);
        assert forall|i: int, j: int| #![trigger r[i], r[j]] 0 <= i < j < r.len() implies encode_utf8(
            r[i].hostname,
        ).len() >= encode_utf8(r[j].hostname).len() by {
            assert(r[j] == q[j - 1]);
            if i > 0 {
                assert(r[i] == q[i - 1]);
            } else if t.contains(q[j - 1]) {
                let k = choose|k: int| 0 <= k < t.len() && t[k] == q[j - 1];
                assert(encode_utf8(s[0].hostname).len() >= encode_utf8(s[k + 1].hostname).len());
            }
        }
        assert forall|i: int| 0 <= i < r.len() implies s.contains(#[trigger] r[i]) || r[i] == e by {
            if i > 0 {
                assert(r[i] == q[i - 1]);
                if t.contains(q[i - 1]) {
                    let k = choose|k: int| 0 <= k < t.len() && t[k] == q[i - 1];
                    assert(s[k + 1] == r[i]);
                }
            } else {
                assert(s[0] == r[0]);
            }
        }
    }
}

/// Every entry of `a` is in `b` as it is.
pub open spec fn kept_in(a: Map<u32, PeerView>, b: Map<u32, PeerView>) -> bool {
    forall|ip: u32| #[trigger] a.dom().contains(ip) ==> b.dom().contains(ip) && a[ip] == b[ip]
}

/// What adding to tables in the making keeps.
spec fn grows(a: TablesView, b: TablesView) -> bool {
    &&& kept_in(a.by_ip, b.by_ip)
    &&& narrow_first(a.subnets) ==> narrow_first(b.subnets)
    &&& long_first(a.hostname_wildcards) ==> long_first(b.hostname_wildcards)
}

proof fn lemma_peers_grow(
    m: Making,
    ps: Seq<PeerEntry>,
    net: u128,
    name: Seq<char>,
    ov: Overrides,
)
    ensures
        grows(m.t, with_peers(m, ps, net, name, ov).t),
    decreases ps.len(),
{
    if ps.len() > 0 {
        lemma_peers_grow(m, ps.drop_last(), net, name, ov);
    }
}

proof fn lemma_routes_grow(
    m: Making,
    rs: Seq<SubnetRoute>,
    net: u128,
    name: Seq<char>,
    id: Seq<char>,
)
    ensures
        grows(m.t, with_routes(m, rs, net, name, id).t),
    decreases rs.len(),
{
    if rs.len() > 0 {
        lemma_routes_grow(m, rs.drop_last(), net, name, id);
        let b = with_routes(m, rs.drop_last(), net, name, id);
        let r = rs.last();
        if let Some(v) = gateway(b.local, r.via_endpoint_id@, r.via_ip, net, name) {
            if narrow_first(b.t.subnets) {
                lemma_with_subnet_narrow(b.t.subnets, (r.cidr, v));
            }
        }
    }
}

proof fn lemma_exits_grow(m: Making, es: Seq<ExitNodeInfo>, id: Seq<char>)
    ensures
        grows(m.t, with_own_exits(m, es, id).t),
    decreases es.len(),
{
    if es.len() > 0 {
        lemma_exits_grow(m, es.drop_last(), id);
    }
}

proof fn lemma_hostnames_grow(
    m: Making,
    rs: Seq<HostnameRoute>,
    net: u128,
    name: Seq<char>,
    id: Seq<char>,
)
    ensures
        grows(m.t, with_hostnames(m, rs, net, name, id).t),
    decreases rs.len(),
{
    if rs.len() > 0 {
        lemma_hostnames_grow(m, rs.drop_last(), net, name, id);
        let b = with_hostnames(m, rs.drop_last(), net, name, id);
        let r = rs.last();
        if let Some(v) = gateway(b.local, r.via_endpoint_id@, r.via_ip, net, name) {
            let info = RouteView {
                peer: v,
                is_wildcard: r.is_wildcard,
                target_ip: r.target_ip,
                hostname: lowered(r.hostname@),
            };
            if long_first(b.t.hostname_wildcards) {
                lemma_with_wildcard_long(b.t.hostname_wildcards, info);
            }
        }
    }
}

proof fn lemma_slice_grows(t: TablesView, net: u128, s: NetworkSlice, ov: Overrides)
    ensures
        grows(t, with_slice(t, net, s, ov)),
{
    let name = s.network_name@;
    let id = s.self_endpoint_id@;
    let t0 = TablesView {
        network_name: if t.network_name.len() == 0 {
            name
        } else {
            t.network_name
        },
        dns_suffix: s.dns.suffix@,
        magic_ip: s.dns.magic_ip,
        ..t
    };
    let m0 = Making { t: t0, local: Map::empty() };
    lemma_peers_grow(m0, s.peers@, net, name, ov);
    let m1 = with_peers(m0, s.peers@, net, name, ov);
    lemma_routes_grow(m1, s.subnet_routes@, net, name, id);
    let m2 = with_routes(m1, s.subnet_routes@, net, name, id);
    lemma_exits_grow(m2, s.exit_nodes@, id);
    let m3 = with_own_exits(m2, s.exit_nodes@, id);
    let chosen = text_of(s.profile.exit_node_endpoint_id);
    let m4 = with_chosen_exit(m3, chosen, s.exit_nodes@, net, name);
    assert(grows(m3.t, m4.t)) by {
        if let Some(x) = chosen {
            if let Some(e) = exit_named(s.exit_nodes@, x) {
                if let Some(v) = gateway(m3.local, x, e.via_ip, net, name) {
                    if narrow_first(m3.t.subnets) {
                        lemma_exit_blocks_narrow(m3.t.subnets, e.allowed_cidrs@, v);
                    }
                }
            }
        }
    }
    lemma_hostnames_grow(m4, s.hostname_routes@, net, name, id);
}

/// The tables keep narrow blocks before wide ones, and long wildcards before short ones.
pub proof fn law_tables_sorted(slices: Seq<(u128, NetworkSlice)>, ov: Overrides, version: u64)
    ensures
        narrow_first(tables_of(slices, ov, version).subnets),
        long_first(tables_of(slices, ov, version).hostname_wildcards),
    decreases slices.len(),
{
    if slices.len() > 0 {
        law_tables_sorted(slices.drop_last(), ov, version);
        lemma_slice_grows(
            tables_of(slices.drop_last(), ov, version),
            slices.last().0,
            slices.last().1,
            ov,
        );
    }
}

/// The network that was joined first wins: what an address means outbound does not change
/// when more networks are joined after.
pub proof fn law_first_joined_wins(
    first: Seq<(u128, NetworkSlice)>,
    later: Seq<(u128, NetworkSlice)>,
    ov: Overrides,
    version: u64,
)
    ensures
        kept_in(tables_of(first, ov, version).by_ip, tables_of(first + later, ov, version).by_ip),
    decreases later.len(),
{
    if later.len() == 0 {
        assert(first + later =~= first);
    } else {
        law_first_joined_wins(first, later.drop_last(), ov, version);
        let all = first + later;
        assert(all.drop_last() =~= first + later.drop_last());
        assert(all.last() == later.last());
        lemma_slice_grows(
            tables_of(all.drop_last(), ov, version),
            all.last().0,
            all.last().1,
            ov,
        );
    }
}

proof fn lemma_first_spanning(s: Seq<(Ipv4Net, PeerView)>, ip: u32, i: int) -> (j: int)
    requires
        narrow_first(s),
        0 <= i < s.len(),
        s[i].0.spans(ip),
    ensures
        0 <= j <= i,
        s[j].0.spans(ip),
        first_spanning(s, ip) == Some(s[j].1),
    decreases s.len(),
{
    if s[0].0.spans(ip) {
        0
    } else {
        let t = s.drop_first();
        assert(narrow_first(t)) by {
            assert forall|a: int, b: int|
                #![trigger t[a], t[b]]
                0 <= a < b < t.len() implies t[a].0.prefix >= t[b].0.prefix by {
                assert(s[a + 1].0.prefix >= s[b + 1].0.prefix);
            }
        }
        let k = lemma_first_spanning(t, ip, i - 1);
        k + 1
    }
}

/// Longest prefix match: among the blocks that hold an address, one that is at least as
/// narrow as every other carries it.
pub proof fn law_longest_prefix_match(
    slices: Seq<(u128, NetworkSlice)>,
    ov: Overrides,
    version: u64,
    ip: u32,
    i: int,
)
    requires
        0 <= i < tables_of(slices, ov, version).subnets.len(),
        tables_of(slices, ov, version).subnets[i].0.spans(ip),
    ensures
        exists|j: int|
            0 <= j < tables_of(slices, ov, version).subnets.len() && (
            #[trigger] tables_of(slices, ov, version).subnets[j]).0.spans(ip) && tables_of(
                slices,
                ov,
                version,
            ).subnets[j].0.prefix >= tables_of(slices, ov, version).subnets[i].0.prefix
                && first_spanning(tables_of(slices, ov, version).subnets, ip) == Some(
                tables_of(slices, ov, version).subnets[j].1,
            ),
{
    law_tables_sorted(slices, ov, version);
    let s = tables_of(slices, ov, version).subnets;
    let j = lemma_first_spanning(s, ip, i);
    assert(s[j].0.prefix >= s[i].0.prefix);
}

proof fn lemma_first_wildcard(s: Seq<RouteView>, host: Seq<char>, i: int) -> (j: int)
    requires
        0 <= i < s.len(),
        under(host, s[i].hostname),
    ensures
        0 <= j <= i,
        under(host, s[j].hostname),
        first_wildcard(s, host) == Some(s[j]),
    decreases s.len(),
{
    if under(host, s[0].hostname) {
        0
    } else {
        let k = lemma_first_wildcard(s.drop_first(), host, i - 1);
        k + 1
    }
}

/// Among the wildcards that cover a name, one with the longest suffix answers for it,
/// where no exact route does.
pub proof fn law_longest_wildcard_answers(
    slices: Seq<(u128, NetworkSlice)>,
    ov: Overrides,
    version: u64,
    host: Seq<char>,
    i: int,
)
    requires
        !tables_of(slices, ov, version).hostname_exact.dom().contains(host),
        0 <= i < tables_of(slices, ov, version).hostname_wildcards.len(),
        under(host, tables_of(slices, ov, version).hostname_wildcards[i].hostname),
    ensures
        route_of(tables_of(slices, ov, version), host) matches Some(r) && under(host, r.hostname)
            && encode_utf8(r.hostname).len() >= encode_utf8(
            tables_of(slices, ov, version).hostname_wildcards[i].hostname,
        ).len(),
{
    law_tables_sorted(slices, ov, version);
    let s = tables_of(slices, ov, version).hostname_wildcards;
    let j = lemma_first_wildcard(s, host, i);
    assert(encode_utf8(s[j].hostname).len() >= encode_utf8(s[i].hostname).len());
}

/// A peer's own address comes before every subnet and the exit node.
pub proof fn law_direct_peer_first(t: TablesView, synths: Map<u32, Arc<PeerInfo>>, ip: u32)
    requires
        t.by_ip.dom().contains(ip),
    ensures
        carrier(t, synths, ip) == Some(t.by_ip[ip]),
{
}

/// The exit node carries every address that nothing else claims, but for those that
/// never leave the machine or the link.
pub proof fn law_exit_takes_the_rest(t: TablesView, synths: Map<u32, Arc<PeerInfo>>, ip: u32)
    requires
        !t.by_ip.dom().contains(ip),
        !synths.dom().contains(ip),
        forall|i: int| 0 <= i < t.subnets.len() ==> !(#[trigger] t.subnets[i]).0.spans(ip),
    ensures
        carrier(t, synths, ip) == (if stays_local(ip) {
            None
        } else {
            t.exit_node
        }),
{
    lemma_none_spanning(t.subnets, ip);
}

proof fn lemma_none_spanning(s: Seq<(Ipv4Net, PeerView)>, ip: u32)
    requires
        forall|i: int| 0 <= i < s.len() ==> !(#[trigger] s[i]).0.spans(ip),
    ensures
        first_spanning(s, ip) is None,
    decreases s.len(),
{
    if s.len() > 0 {
        assert(!s[0].0.spans(ip));
        let t = s.drop_first();
        assert forall|i: int| 0 <= i < t.len() implies !(#[trigger] t[i]).0.spans(ip) by {
            assert(!s[i + 1].0.spans(ip));
        }
        lemma_none_spanning(t, ip);
    }
}

/// A subnet that this node itself advertises is not routed to a peer.
pub proof fn law_own_subnet_not_routed(
    m: Making,
    r: SubnetRoute,
    net: u128,
    name: Seq<char>,
    self_id: Seq<char>,
)
    requires
        r.via_endpoint_id@ == self_id,
    ensures
        with_route(m, r, net, name, self_id).t.subnets == m.t.subnets,
        with_route(m, r, net, name, self_id).t.advertised == m.t.advertised.push(r.cidr),
{
}

/// A synthetic address lies in 100.100.0.0/16, and is neither its first nor its last.
pub proof fn law_synthetic_in_range(host: Seq<char>)
    ensures
        0x6464_0000 < synthetic(host) < 0x6464_ffff,
{
}

/// An address that DNS gave out for a hostname route leads to the gateway of the route
/// once it is remembered, unless a member has that very address.
pub proof fn law_remembered_name_is_carried(
    t: TablesView,
    synths: Map<u32, Arc<PeerInfo>>,
    name: Seq<char>,
    ip: u32,
    p: Arc<PeerInfo>,
)
    requires
        !some_named(t, bare_name(t, name)),
        !t.by_hostname.dom().contains(peer_part(t, bare_name(t, name))),
        address_answer(t, name, Some(ip)),
        remembered_route(t, name, ip) matches Some(r) ==> (*p)@ == r.peer,
        !t.by_ip.dom().contains(ip),
    ensures
        remembered_route(t, name, ip) is Some,
        carrier(t, synths.insert(ip, p), ip) == Some(
            remembered_route(t, name, ip)->Some_0.peer,
        ),
{
}

/// After a change of membership nobody is a member who was removed and not added again,
/// nor this node itself.
pub proof fn law_removed_is_gone(
    ps: Seq<PeerEntry>,
    added: Seq<PeerEntry>,
    removed: Seq<Seq<char>>,
    self_id: Seq<char>,
    id: Seq<char>,
)
    requires
        id == self_id || (removed.contains(id) && forall|i: int|
            0 <= i < added.len() ==> (#[trigger] added[i]).endpoint_id@ != id),
    ensures
        forall|i: int|
            0 <= i < changed(ps, added, removed, self_id).len() ==> (
            #[trigger] changed(ps, added, removed, self_id)[i]).endpoint_id@ != id,
{
    let f = |p: PeerEntry| stays(p, removed, self_id);
    let base = ps.filter(f);
    assert forall|i: int| 0 <= i < base.len() implies (#[trigger] base[i]).endpoint_id@ != id by {
        ps.lemma_filter_pred(f, i);
    }
    lemma_members_lack(base, added, self_id, id);
}

proof fn lemma_members_lack(
    ps: Seq<PeerEntry>,
    added: Seq<PeerEntry>,
    self_id: Seq<char>,
    id: Seq<char>,
)
    requires
        forall|i: int| 0 <= i < ps.len() ==> (#[trigger] ps[i]).endpoint_id@ != id,
        id == self_id || forall|i: int|
            0 <= i < added.len() ==> (#[trigger] added[i]).endpoint_id@ != id,
    ensures
        forall|i: int|
            0 <= i < with_members(ps, added, self_id).len() ==> (
            #[trigger] with_members(ps, added, self_id)[i]).endpoint_id@ != id,
    decreases added.len(),
{
    if added.len() > 0 {
        let rest = added.drop_last();
        if id != self_id {
            assert forall|i: int| 0 <= i < rest.len() implies (#[trigger] rest[i]).endpoint_id@
                != id by {
                assert(added[i].endpoint_id@ != id);
            }
            assert(added[added.len() - 1].endpoint_id@ != id);
        }
        lemma_members_lack(ps, rest, self_id, id);
        lemma_place_in_range(with_members(ps, rest, self_id), added.last().endpoint_id@);
    }
}

proof fn lemma_place_in_range(ps: Seq<PeerEntry>, id: Seq<char>)
    ensures
        place_of(ps, id) matches Some(i) ==> 0 <= i < ps.len() && ps[i].endpoint_id@ == id,
    decreases ps.len(),
{
    if ps.len() > 0 {
        lemma_place_in_range(ps.drop_last(), id);
    }
}

/// Whoever is added last is a member after the change, as given.
pub proof fn law_added_is_member(
    ps: Seq<PeerEntry>,
    added: Seq<PeerEntry>,
    removed: Seq<Seq<char>>,
    self_id: Seq<char>,
)
    requires
        added.len() > 0,
        added.last().endpoint_id@ != self_id,
    ensures
        changed(ps, added, removed, self_id).contains(added.last()),
{
    let f = |p: PeerEntry| stays(p, removed, self_id);
    let b = with_members(ps.filter(f), added.drop_last(), self_id);
    let p = added.last();
    lemma_place_in_range(b, p.endpoint_id@);
    let r = with_member(b, p);
    match place_of(b, p.endpoint_id@) {
        Some(i) => {
            assert(r[i] == p);
        },
        None => {
            assert(r[b.len() as int] == p);
        },
    }
}

} // verus!
