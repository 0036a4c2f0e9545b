//! Which peer an address or a name leads to, in terms of what the control plane says.

use super::lookup::{
    address_answer, bare_name, carrier, first_spanning, first_wildcard, is_named, key_answer,
    peer_named, route_of, some_named, stays_local, under,
};
use super::model::{
    address_of, exit_named, hash_of, no_tables, synthetic, tables_of, with_exit_blocks,
    with_hostnames, with_own_exits, with_peers, with_routes, with_slice, with_subnet, with_wildcard,
    Overrides, TablesView,
};
use super::types::{
    ExitNodeInfo, HostnameRoute, Ipv4Net, NetworkSlice, PeerEntry, PeerInfo, PeerView, RouteView,
    SubnetRoute,
};
use crate::endpoint::endpoint_of;
use crate::numerals::{law_final_dots_come_off, law_suffix_comes_off};
use crate::policy::blocks::{first_address, law_block_is_a_range};
use crate::text::{dotted, lowered};
use std::sync::Arc;
use vstd::arithmetic::power2::pow2;
use vstd::prelude::*;
use vstd::utf8::encode_utf8;

verus! {

/// The block holds the address: it is one of the `2^(32 - prefix)` from the first one up.
pub open spec fn ranges_over(block: Ipv4Net, ip: u32) -> bool {
    let first = first_address(block.addr, block.prefix);
    block.prefix <= 32 && first <= ip < first + pow2((32 - block.prefix) as nat)
}

/// A subnet route takes the addresses of its block, all of them and no others.
pub proof fn law_subnet_takes_its_block(block: Ipv4Net, ip: u32)
    ensures
        block.spans(ip) == ranges_over(block, ip),
{
    law_block_is_a_range(block.addr, block.prefix, ip);
}

/// Addresses that never leave the machine or the link: 127.0.0.0/8, 169.254.0.0/16,
/// 255.255.255.255 and 0.0.0.0.
pub proof fn law_addresses_that_stay(ip: u32)
    ensures
        stays_local(ip) <==> (0x7f00_0000 <= ip <= 0x7fff_ffff || 0xa9fe_0000 <= ip
            <= 0xa9fe_ffff || ip == 0xffff_ffff || ip == 0),
{
    assert(ip >> 24 == 127 <==> (0x7f00_0000 <= ip && ip <= 0x7fff_ffff)) by (bit_vector);
    assert(ip >> 16 == 0xa9fe <==> (0xa9fe_0000 <= ip && ip <= 0xa9fe_ffff)) by (bit_vector);
}

/// An address that no peer has goes to the gateway of the first block that holds it; one
/// that no block holds goes to the exit node, unless it stays on the link.
pub proof fn law_blocks_in_order(
    t: TablesView,
    synths: Map<u32, Arc<PeerInfo>>,
    ip: u32,
    i: int,
)
    requires
        !t.by_ip.dom().contains(ip),
        !synths.dom().contains(ip),
        0 <= i <= t.subnets.len(),
        forall|j: int| 0 <= j < i ==> !ranges_over((#[trigger] t.subnets[j]).0, ip),
        i < t.subnets.len() ==> ranges_over(t.subnets[i].0, ip),
    ensures
        i < t.subnets.len() ==> carrier(t, synths, ip) == Some(t.subnets[i].1),
        i == t.subnets.len() && (0x7f00_0000 <= ip <= 0x7fff_ffff || 0xa9fe_0000 <= ip
            <= 0xa9fe_ffff || ip == 0xffff_ffff || ip == 0) ==> carrier(t, synths, ip) is None,
        i == t.subnets.len() && !(0x7f00_0000 <= ip <= 0x7fff_ffff || 0xa9fe_0000 <= ip
            <= 0xa9fe_ffff || ip == 0xffff_ffff || ip == 0) ==> carrier(t, synths, ip)
            == t.exit_node,
{
    law_addresses_that_stay(ip);
    lemma_first_spanning(t.subnets, ip, i);
}

proof fn lemma_first_spanning(s: Seq<(Ipv4Net, PeerView)>, ip: u32, i: int)
    requires
        0 <= i <= s.len(),
        forall|j: int| 0 <= j < i ==> !ranges_over((#[trigger] s[j]).0, ip),
        i < s.len() ==> ranges_over(s[i].0, ip),
    ensures
        first_spanning(s, ip) == (if i < s.len() {
            Some(s[i].1)
        } else {
            None
        }),
    decreases s.len(),
{
    if s.len() > 0 {
        law_subnet_takes_its_block(s[0].0, ip);
        if i > 0 {
            let t = s.drop_first();
            assert(!ranges_over(s[0].0, ip));
            assert forall|j: int| 0 <= j < i - 1 implies !ranges_over((#[trigger] t[j]).0, ip) by {
                assert(t[j] == s[j + 1]);
            }
            lemma_first_spanning(t, ip, i - 1);
        }
    }
}

/// A block that is added stands behind the ones that are at least as narrow and before the
/// wider ones; the others stay in order.
pub proof fn law_block_is_put_in_place(s: Seq<(Ipv4Net, PeerView)>, e: (Ipv4Net, PeerView), i: int)
    requires
        0 <= i <= s.len(),
        forall|j: int| 0 <= j < i ==> (#[trigger] s[j]).0.prefix >= e.0.prefix,
        i < s.len() ==> s[i].0.prefix < e.0.prefix,
    ensures
        with_subnet(s, e) == s.insert(i, e),
    decreases s.len(),
{
    if i == 0 {
        assert(with_subnet(s, e) =~= s.insert(0, e));
    } else {
        let t = s.drop_first();
        assert(s[0].0.prefix >= e.0.prefix);
        assert forall|j: int| 0 <= j < i - 1 implies (#[trigger] t[j]).0.prefix >= e.0.prefix by {
            assert(t[j] == s[j + 1]);
        }
        law_block_is_put_in_place(t, e, i - 1);
        assert(with_subnet(s, e) =~= s.insert(i, e));
    }
}

/// A network of one member and nothing else.
pub open spec fn lone_member(s: NetworkSlice, p: PeerEntry) -> bool {
    &&& s.peers@ == seq![p]
    &&& s.hostname_routes@.len() == 0
    &&& s.exit_nodes@.len() == 0
}

proof fn lemma_one_slice(net: u128, s: NetworkSlice, ov: Overrides, version: u64)
    ensures
        tables_of(seq![(net, s)], ov, version) == with_slice(no_tables(version), net, s, ov),
{
    let q = seq![(net, s)];
    assert(q.drop_last() =~= Seq::<(u128, NetworkSlice)>::empty());
    assert(q.last() == (net, s));
    assert(tables_of(q.drop_last(), ov, version) == no_tables(version));
}

/// A member is reached by its address, its endpoint and its hostname; its address is the one
/// that the control plane gives, unless there is an override for its hostname, in any case,
/// or else for its endpoint.
pub proof fn law_member_is_reached(
    net: u128,
    s: NetworkSlice,
    ov: Overrides,
    version: u64,
    p: PeerEntry,
)
    requires
        lone_member(s, p),
        s.subnet_routes@.len() == 0,
        endpoint_of(p.endpoint_id@) is Some,
        p.hostname@.len() > 0,
        p.endpoint_id@.len() > 0,
    ensures
        ({
            let t = tables_of(seq![(net, s)], ov, version);
            let by_name = (net, lowered(p.hostname@));
            let by_id = (net, lowered(p.endpoint_id@));
            let ip = if ov.dom().contains(by_name) {
                ov[by_name]
            } else if ov.dom().contains(by_id) {
                ov[by_id]
            } else {
                p.ip
            };
            let v = t.by_network_ip[(net, ip)];
            &&& t.by_network_ip.dom() == set![(net, ip)]
            &&& v.ip == ip
            &&& Some(v.endpoint) == endpoint_of(p.endpoint_id@)
            &&& v.endpoint_hex == p.endpoint_id@
            &&& v.hostname == p.hostname@
            &&& v.network_id == net
            &&& v.network_name == s.network_name@
            &&& t.by_ip.dom() == set![ip]
            &&& t.by_ip[ip] == v
            &&& t.by_endpoint.dom() == set![p.endpoint_id@]
            &&& t.by_endpoint[p.endpoint_id@] == v
            &&& peer_named(t, lowered(p.hostname@)) == Some(v)
            &&& s.network_name@.len() > 0 ==> peer_named(
                t,
                lowered(p.hostname@) + seq!['.'] + s.network_name@,
            ) == Some(v)
            &&& t.subnets.len() == 0
            &&& t.exit_node is None
            &&& t.network_name == s.network_name@
            &&& t.dns_suffix == s.dns.suffix@
            &&& t.magic_ip == s.dns.magic_ip
            &&& t.version == version
        }),
{
    lemma_one_slice(net, s, ov, version);
    reveal_with_fuel(with_peers, 2);
    reveal_with_fuel(with_routes, 2);
    reveal_with_fuel(with_own_exits, 2);
    reveal_with_fuel(with_hostnames, 2);
    reveal_with_fuel(exit_named, 2);
    assert(seq![p].drop_last() =~= Seq::<PeerEntry>::empty());
    assert(seq![p].last() == p);
    let t = tables_of(seq![(net, s)], ov, version);
    let ip = address_of(p, net, ov);
    assert(t.by_network_ip.dom() =~= set![(net, ip)]);
    assert(t.by_ip.dom() =~= set![ip]);
    assert(t.by_endpoint.dom() =~= set![p.endpoint_id@]);
    let host = lowered(p.hostname@);
    assert(host + seq!['.'] + s.network_name@ =~= dotted(host, s.network_name@));
}

/// A member whose id is malformed is no member.
pub proof fn law_malformed_member_is_left_out(
    net: u128,
    s: NetworkSlice,
    ov: Overrides,
    version: u64,
    p: PeerEntry,
)
    requires
        lone_member(s, p),
        s.subnet_routes@.len() == 0,
        endpoint_of(p.endpoint_id@) is None,
    ensures
        ({
            let t = tables_of(seq![(net, s)], ov, version);
            &&& t.by_ip == Map::<u32, PeerView>::empty()
            &&& t.by_network_ip == Map::<(u128, u32), PeerView>::empty()
            &&& t.by_endpoint == Map::<Seq<char>, PeerView>::empty()
            &&& t.by_hostname == Map::<Seq<char>, PeerView>::empty()
        }),
{
    lemma_one_slice(net, s, ov, version);
    reveal_with_fuel(with_peers, 2);
    reveal_with_fuel(with_routes, 2);
    reveal_with_fuel(with_own_exits, 2);
    reveal_with_fuel(with_hostnames, 2);
    reveal_with_fuel(exit_named, 2);
    assert(seq![p].drop_last() =~= Seq::<PeerEntry>::empty());
    assert(seq![p].last() == p);
}

/// A subnet route leads to its gateway: every address of the block, but for those that a
/// member has, goes to the member that the route names, and no other address does. A route
/// by way of this node is advertised instead, and leads nowhere.
pub proof fn law_subnet_route_leads_to_its_gateway(
    net: u128,
    s: NetworkSlice,
    ov: Overrides,
    version: u64,
    p: PeerEntry,
    r: SubnetRoute,
    ip: u32,
)
    requires
        lone_member(s, p),
        s.subnet_routes@ == seq![r],
        endpoint_of(p.endpoint_id@) is Some,
        r.via_endpoint_id@ == p.endpoint_id@,
    ensures
        ({
            let t = tables_of(seq![(net, s)], ov, version);
            let none = Map::<u32, Arc<PeerInfo>>::empty();
            let c = carrier(t, none, ip);
            let own = s.self_endpoint_id@ == p.endpoint_id@;
            &&& t.by_ip.dom().contains(ip) ==> c == Some(t.by_ip[ip])
            &&& !t.by_ip.dom().contains(ip) && !own && ranges_over(r.cidr, ip) ==> c is Some
                && c->0.endpoint_hex == p.endpoint_id@ && c->0.network_id == net
            &&& !t.by_ip.dom().contains(ip) && !ranges_over(r.cidr, ip) ==> c is None
            &&& !t.by_ip.dom().contains(ip) && own ==> c is None
            &&& own ==> t.advertised == seq![r.cidr]
            &&& !own ==> t.advertised.len() == 0
        }),
{
    lemma_one_slice(net, s, ov, version);
    reveal_with_fuel(with_peers, 2);
    reveal_with_fuel(with_routes, 2);
    reveal_with_fuel(with_own_exits, 2);
    reveal_with_fuel(with_hostnames, 2);
    reveal_with_fuel(exit_named, 2);
    reveal_with_fuel(with_subnet, 2);
    reveal_with_fuel(first_spanning, 3);
    assert(seq![p].drop_last() =~= Seq::<PeerEntry>::empty());
    assert(seq![p].last() == p);
    assert(seq![r].drop_last() =~= Seq::<SubnetRoute>::empty());
    assert(seq![r].last() == r);
    law_subnet_takes_its_block(r.cidr, ip);
    let t = tables_of(seq![(net, s)], ov, version);
    if s.self_endpoint_id@ != p.endpoint_id@ {
        assert(t.subnets.len() == 1);
        assert(t.subnets[0].0 == r.cidr);
        assert(t.subnets.drop_first() =~= Seq::<(Ipv4Net, PeerView)>::empty());
    } else {
        assert(t.subnets.len() == 0);
        assert(t.advertised =~= seq![r.cidr]);
    }
    assert(t.exit_node is None);
}

/// The exit node that this device has chosen carries whatever nothing else does; one that
/// was not chosen carries nothing.
pub proof fn law_chosen_exit_node(
    net: u128,
    s: NetworkSlice,
    ov: Overrides,
    version: u64,
    p: PeerEntry,
    x: ExitNodeInfo,
    ip: u32,
)
    requires
        s.peers@ == seq![p],
        s.hostname_routes@.len() == 0,
        s.subnet_routes@.len() == 0,
        s.exit_nodes@ == seq![x],
        x.endpoint_id@ == p.endpoint_id@,
        x.allowed_cidrs@.len() == 0,
        endpoint_of(p.endpoint_id@) is Some,
    ensures
        ({
            let t = tables_of(seq![(net, s)], ov, version);
            let chosen = s.profile.exit_node_endpoint_id;
            let c = carrier(t, Map::<u32, Arc<PeerInfo>>::empty(), ip);
            &&& chosen is None ==> t.exit_node is None
            &&& chosen is Some && chosen->0@ != p.endpoint_id@ ==> t.exit_node is None
            &&& chosen is Some && chosen->0@ == p.endpoint_id@ ==> t.exit_node is Some
                && t.exit_node->0.endpoint_hex == p.endpoint_id@
            &&& chosen is Some && chosen->0@ == p.endpoint_id@ && !t.by_ip.dom().contains(ip) && !(
            0x7f00_0000 <= ip <= 0x7fff_ffff || 0xa9fe_0000 <= ip <= 0xa9fe_ffff || ip
                == 0xffff_ffff || ip == 0) ==> c == t.exit_node
        }),
{
    lemma_one_slice(net, s, ov, version);
    reveal_with_fuel(with_peers, 2);
    reveal_with_fuel(with_routes, 2);
    reveal_with_fuel(with_own_exits, 2);
    reveal_with_fuel(with_hostnames, 2);
    reveal_with_fuel(exit_named, 3);
    reveal_with_fuel(with_exit_blocks, 2);
    assert(seq![p].drop_last() =~= Seq::<PeerEntry>::empty());
    assert(seq![p].last() == p);
    assert(seq![x].drop_last() =~= Seq::<ExitNodeInfo>::empty());
    assert(seq![x].last() == x);
    assert(seq![x].drop_first() =~= Seq::<ExitNodeInfo>::empty());
    law_addresses_that_stay(ip);
    let t = tables_of(seq![(net, s)], ov, version);
    assert(t.subnets.len() == 0);
}

/// A name lies under a suffix where it is the suffix or ends in it behind a dot; a suffix in
/// the middle of a word does not count.
pub proof fn law_names_under_a_suffix(a: Seq<char>, suffix: Seq<char>)
    ensures
        under(suffix, suffix),
        under(a + seq!['.'] + suffix, suffix),
        a.len() > 0 && a.last() != '.' ==> !under(a + suffix, suffix),
{
    let host = a + seq!['.'] + suffix;
    let part = a + seq!['.'];
    law_suffix_comes_off(part, suffix);
    assert(part + suffix =~= host);
    assert(part.last() == '.');
    law_suffix_comes_off(a, suffix);
    if a.len() > 0 {
        assert((a + suffix).len() != suffix.len());
    }
}

/// A hostname route answers for its name, in any case, and a wildcard for the names under
/// its suffix; the gateway is the member that the route names. Names that no route covers
/// have none.
pub proof fn law_hostname_route_leads_to_its_gateway(
    net: u128,
    s: NetworkSlice,
    ov: Overrides,
    version: u64,
    p: PeerEntry,
    r: HostnameRoute,
    host: Seq<char>,
)
    requires
        s.peers@ == seq![p],
        s.hostname_routes@ == seq![r],
        s.subnet_routes@.len() == 0,
        s.exit_nodes@.len() == 0,
        endpoint_of(p.endpoint_id@) is Some,
        r.via_endpoint_id@ == p.endpoint_id@,
    ensures
        ({
            let t = tables_of(seq![(net, s)], ov, version);
            let f = route_of(t, host);
            let own = s.self_endpoint_id@ == p.endpoint_id@;
            let fits = if r.is_wildcard {
                under(host, lowered(r.hostname@))
            } else {
                host == lowered(r.hostname@)
            };
            &&& own ==> f is None && t.advertised_hostnames.len() == 1
                && t.advertised_hostnames[0].hostname == lowered(r.hostname@)
            &&& !own && !fits ==> f is None
            &&& !own && fits ==> f is Some && f->0.peer.endpoint_hex == p.endpoint_id@
                && f->0.target_ip == r.target_ip && f->0.is_wildcard == r.is_wildcard
            &&& !own && !r.is_wildcard && synthetic(lowered(r.hostname@)) != address_of(p, net, ov)
                ==> t.by_ip.dom().contains(synthetic(lowered(r.hostname@))) && t.by_ip[synthetic(
                lowered(r.hostname@),
            )].endpoint_hex == p.endpoint_id@
        }),
{
    lemma_one_slice(net, s, ov, version);
    reveal_with_fuel(with_peers, 2);
    reveal_with_fuel(with_routes, 2);
    reveal_with_fuel(with_own_exits, 2);
    reveal_with_fuel(with_hostnames, 2);
    reveal_with_fuel(exit_named, 2);
    reveal_with_fuel(with_wildcard, 2);
    reveal_with_fuel(first_wildcard, 3);
    assert(seq![p].drop_last() =~= Seq::<PeerEntry>::empty());
    assert(seq![p].last() == p);
    assert(seq![r].drop_last() =~= Seq::<HostnameRoute>::empty());
    assert(seq![r].last() == r);
    let t = tables_of(seq![(net, s)], ov, version);
    if r.is_wildcard && s.self_endpoint_id@ != p.endpoint_id@ {
        assert(t.hostname_wildcards.len() == 1);
        assert(t.hostname_wildcards.drop_first() =~= Seq::<RouteView>::empty());
    }
}

/// The synthetic address of a name comes from its FNV-1a hash, byte by byte, folded into
/// 100.100.0.1 to 100.100.255.254.
pub proof fn law_synthetic_address(host: Seq<char>, b: Seq<u8>, x: u8)
    ensures
        hash_of(Seq::empty()) == 2_166_136_261,
        hash_of(b.push(x)) == ((hash_of(b) ^ (x as u32)) * 16_777_619) % 4_294_967_296,
        synthetic(host) == 1_684_275_200 + hash_of(encode_utf8(host)) % 65_534 + 1,
{
    assert(b.push(x).drop_last() =~= b);
}

/// A member is found by its short name, with the suffix of the mesh or without it, in any
/// case and with dots at the end.
pub proof fn law_short_name_is_answered(
    t: TablesView,
    v: PeerView,
    name: Seq<char>,
    host: Seq<char>,
    n: nat,
    r: Option<u32>,
)
    requires
        t.by_network_ip.dom().contains((v.network_id, v.ip)),
        t.by_network_ip[(v.network_id, v.ip)] == v,
        v.hostname.len() > 0,
        host == lowered(v.hostname),
        host.last() != '.',
        t.dns_suffix.len() > 0,
        t.dns_suffix.last() != '.',
        lowered(t.dns_suffix) == t.dns_suffix,
        lowered(name) == host + seq!['.'] + t.dns_suffix,
        forall|k: (u128, u32)| #[trigger]
            is_named(t, host, k) ==> t.by_network_ip[k].ip == v.ip,
    ensures
        address_answer(t, name + Seq::new(n, |i: int| '.'), r) <==> r == Some(v.ip),
{
    let full = host + seq!['.'] + t.dns_suffix;
    assert(full.last() == t.dns_suffix.last());
    assert(name.len() == lowered(name).len());
    assert(lowered(name)[name.len() - 1] == crate::text::lower(name[name.len() - 1]));
    assert(full[full.len() - 1] == full.last());
    assert(name.last() != '.');
    law_final_dots_come_off(name, n);
    let tail = dotted(Seq::empty(), t.dns_suffix);
    law_suffix_comes_off(host, tail);
    assert(host + tail =~= full);
    assert(bare_name(t, name + Seq::new(n, |i: int| '.')) == host);
    assert(is_named(t, host, (v.network_id, v.ip)));
}

/// Where nobody answers to a name and no route covers it, it has no address; where a route
/// covers it, it has the route's synthetic address.
pub proof fn law_other_names(t: TablesView, name: Seq<char>, r: Option<u32>)
    requires
        !some_named(t, bare_name(t, name)),
        t.by_hostname == Map::<Seq<char>, PeerView>::empty(),
        t.network_name.len() == 0,
        address_answer(t, name, r),
    ensures
        route_of(t, lowered(bare_name(t, name))) is None ==> r is None,
        route_of(t, lowered(bare_name(t, name))) is Some ==> r == Some(
            synthetic(bare_name(t, name)),
        ),
{
}

/// The SSH host key of a name is that of the member that has it.
pub proof fn law_host_key_of_a_name(
    t: TablesView,
    v: PeerView,
    name: Seq<char>,
    host: Seq<char>,
    r: Option<Seq<char>>,
)
    requires
        t.by_network_ip.dom().contains((v.network_id, v.ip)),
        t.by_network_ip[(v.network_id, v.ip)] == v,
        host == bare_name(t, name),
        is_named(t, host, (v.network_id, v.ip)),
        forall|k: (u128, u32)| #[trigger] is_named(t, host, k) ==> t.by_network_ip[k] == v,
    ensures
        key_answer(t, name, r) <==> r == v.ssh_host_key,
{
    assert(some_named(t, host));
    assert(is_named(t, host, (v.network_id, v.ip)));
}

/// A name that nobody has gets no host key.
pub proof fn law_unknown_name_has_no_host_key(
    t: TablesView,
    name: Seq<char>,
    r: Option<Seq<char>>,
)
    requires
        t.by_hostname == Map::<Seq<char>, PeerView>::empty(),
        !some_named(t, bare_name(t, name)),
    ensures
        key_answer(t, name, r) <==> r is None,
{
}

} // verus!
