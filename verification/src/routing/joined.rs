//! What an address means where several networks are joined, and what DNS gives back.

use super::laws::{kept_in, law_first_joined_wins};
use super::lookup::{address_answer, answers_to, bare_name, carrier, is_named, name_answer};
use super::model::{
    member, qualified, tables_of, with_chosen_exit, with_hostnames, with_own_exits, with_peers,
    with_routes, with_slice, Making, Overrides, TablesView,
};
use super::slices::in_join_order;
use super::table::RoutingTable;
use super::types::{ExitNodeInfo, HostnameRoute, NetworkSlice, PeerEntry, PeerView, SubnetRoute};
use crate::policy::denylog::text_of;
use crate::table::{lemma_key_count, lemma_slot, map_of};
use crate::text::{dotted, lowered, without_dots, without_suffix};
use vstd::prelude::*;

verus! {

/// The members of a network at an address, but for the one at `i`, come to nothing.
pub open spec fn sole_at(
    ps: Seq<PeerEntry>,
    i: int,
    ip: u32,
    net: u128,
    name: Seq<char>,
    ov: Overrides,
) -> bool {
    forall|j: int|
        0 <= j < ps.len() && j != i ==> (member(#[trigger] ps[j], net, name, ov) matches Some(w)
            ==> w.ip != ip)
}

proof fn lemma_peers_at(
    m: Making,
    ps: Seq<PeerEntry>,
    net: u128,
    name: Seq<char>,
    ov: Overrides,
    k: (u128, u32),
)
    ensures
        ({
            let t = with_peers(m, ps, net, name, ov).t;
            &&& k.0 != net ==> t.by_network_ip.dom().contains(k) == m.t.by_network_ip.dom().contains(
                k,
            ) && t.by_network_ip[k] == m.t.by_network_ip[k]
            &&& forall|i: int|
                0 <= i < ps.len() && k.0 == net && sole_at(ps, i, k.1, net, name, ov) ==> (member(
                    #[trigger] ps[i],
                    net,
                    name,
                    ov,
                ) matches Some(v) ==> (v.ip == k.1 ==> t.by_network_ip.dom().contains(k)
                    && t.by_network_ip[k] == v && (!m.t.by_ip.dom().contains(k.1)
                    ==> t.by_ip.dom().contains(k.1) && t.by_ip[k.1] == v)))
            &&& (forall|j: int|
                0 <= j < ps.len() ==> (member(#[trigger] ps[j], net, name, ov) matches Some(w)
                    ==> w.ip != k.1)) ==> t.by_ip.dom().contains(k.1) == m.t.by_ip.dom().contains(
                k.1,
            )
        }),
    decreases ps.len(),
{
    if ps.len() > 0 {
        let d = ps.drop_last();
        lemma_peers_at(m, d, net, name, ov, k);
        let b = with_peers(m, d, net, name, ov).t;
        let t = with_peers(m, ps, net, name, ov).t;
        let n = ps.len() - 1;
        assert forall|i: int|
            0 <= i < ps.len() && k.0 == net && sole_at(ps, i, k.1, net, name, ov) implies (member(
            #[trigger] ps[i],
            net,
            name,
            ov,
        ) matches Some(v) ==> (v.ip == k.1 ==> t.by_network_ip.dom().contains(k)
            && t.by_network_ip[k] == v && (!m.t.by_ip.dom().contains(k.1) ==> t.by_ip.dom().contains(
            k.1,
        ) && t.by_ip[k.1] == v))) by {
            if i < n {
                assert(d[i] == ps[i]);
                assert forall|j: int| 0 <= j < d.len() && j != i implies (member(
                    #[trigger] d[j],
                    net,
                    name,
                    ov,
                ) matches Some(w) ==> w.ip != k.1) by {
                    assert(d[j] == ps[j]);
                }
                assert(sole_at(d, i, k.1, net, name, ov));
                assert(member(ps[n], net, name, ov) matches Some(w) ==> w.ip != k.1);
            } else {
                assert forall|j: int| 0 <= j < d.len() implies (member(
                    #[trigger] d[j],
                    net,
                    name,
                    ov,
                ) matches Some(w) ==> w.ip != k.1) by {
                    assert(d[j] == ps[j]);
                }
            }
        }
        if forall|j: int|
            0 <= j < ps.len() ==> (member(#[trigger] ps[j], net, name, ov) matches Some(w) ==> w.ip
                != k.1) {
            assert forall|j: int| 0 <= j < d.len() implies (member(
                #[trigger] d[j],
                net,
                name,
                ov,
            ) matches Some(w) ==> w.ip != k.1) by {
                assert(d[j] == ps[j]);
            }
            assert(member(ps[n], net, name, ov) matches Some(w) ==> w.ip != k.1);
        }
    }
}

/// Routes, exit nodes and hostname routes leave the members of the networks alone.
proof fn lemma_rest_keeps(m: Making, s: NetworkSlice, net: u128)
    ensures
        ({
            let (name, id) = (s.network_name@, s.self_endpoint_id@);
            let m2 = with_routes(m, s.subnet_routes@, net, name, id);
            let m3 = with_own_exits(m2, s.exit_nodes@, id);
            let m4 = with_chosen_exit(
                m3,
                text_of(s.profile.exit_node_endpoint_id),
                s.exit_nodes@,
                net,
                name,
            );
            let m5 = with_hostnames(m4, s.hostname_routes@, net, name, id);
            m5.t.by_network_ip == m.t.by_network_ip && kept_in(m.t.by_ip, m5.t.by_ip)
        }),
{
    let (name, id) = (s.network_name@, s.self_endpoint_id@);
    lemma_routes_keep(m, s.subnet_routes@, net, name, id);
    let m2 = with_routes(m, s.subnet_routes@, net, name, id);
    lemma_exits_keep(m2, s.exit_nodes@, id);
    let m3 = with_own_exits(m2, s.exit_nodes@, id);
    let m4 = with_chosen_exit(
        m3,
        text_of(s.profile.exit_node_endpoint_id),
        s.exit_nodes@,
        net,
        name,
    );
    lemma_hostnames_keep(m4, s.hostname_routes@, net, name, id);
}

proof fn lemma_routes_keep(m: Making, rs: Seq<SubnetRoute>, net: u128, name: Seq<char>, id: Seq<char>)
    ensures
        with_routes(m, rs, net, name, id).t.by_network_ip == m.t.by_network_ip,
        with_routes(m, rs, net, name, id).t.by_ip == m.t.by_ip,
    decreases rs.len(),
{
    if rs.len() > 0 {
        lemma_routes_keep(m, rs.drop_last(), net, name, id);
    }
}

proof fn lemma_exits_keep(m: Making, es: Seq<ExitNodeInfo>, id: Seq<char>)
    ensures
        with_own_exits(m, es, id).t.by_network_ip == m.t.by_network_ip,
        with_own_exits(m, es, id).t.by_ip == m.t.by_ip,
    decreases es.len(),
{
    if es.len() > 0 {
        lemma_exits_keep(m, es.drop_last(), id);
    }
}

proof fn lemma_hostnames_keep(
    m: Making,
    rs: Seq<HostnameRoute>,
    net: u128,
    name: Seq<char>,
    id: Seq<char>,
)
    ensures
        with_hostnames(m, rs, net, name, id).t.by_network_ip == m.t.by_network_ip,
        kept_in(m.t.by_ip, with_hostnames(m, rs, net, name, id).t.by_ip),
    decreases rs.len(),
{
    if rs.len() > 0 {
        lemma_hostnames_keep(m, rs.drop_last(), net, name, id);
    }
}

proof fn lemma_slice_at(t: TablesView, net: u128, s: NetworkSlice, ov: Overrides, k: (u128, u32))
    ensures
        ({
            let u = with_slice(t, net, s, ov);
            &&& k.0 != net ==> u.by_network_ip.dom().contains(k) == t.by_network_ip.dom().contains(k)
                && u.by_network_ip[k] == t.by_network_ip[k]
            &&& forall|i: int|
                0 <= i < s.peers@.len() && k.0 == net && sole_at(
                    s.peers@,
                    i,
                    k.1,
                    net,
                    s.network_name@,
                    ov,
                ) ==> (member(#[trigger] s.peers@[i], net, s.network_name@, ov) matches Some(v) ==> (
                v.ip == k.1 ==> u.by_network_ip.dom().contains(k) && u.by_network_ip[k] == v && (
                !t.by_ip.dom().contains(k.1) ==> u.by_ip.dom().contains(k.1) && u.by_ip[k.1] == v)))
        }),
{
    let name = s.network_name@;
    let t0 = TablesView {
        network_name: if t.network_name.len() == 0 {
            name
        } else {
            t.network_name
        },
        dns_suffix: s.dns.suffix@,
        magic_ip: s.dns.magic_ip,
        ..t
    };
    let m0 = Making { t: t0, local: Map::empty() };
    lemma_peers_at(m0, s.peers@, net, name, ov, k);
    lemma_rest_keeps(with_peers(m0, s.peers@, net, name, ov), s, net);
}

/// Within a network an address means that network's member, whatever else is joined.
pub proof fn law_network_address(
    slices: Seq<(u128, NetworkSlice)>,
    ov: Overrides,
    version: u64,
    n: int,
    i: int,
    v: PeerView,
)
    requires
        in_join_order(slices),
        0 <= n < slices.len(),
        0 <= i < slices[n].1.peers@.len(),
        member(slices[n].1.peers@[i], slices[n].0, slices[n].1.network_name@, ov) == Some(v),
        sole_at(slices[n].1.peers@, i, v.ip, slices[n].0, slices[n].1.network_name@, ov),
    ensures
        ({
            let t = tables_of(slices, ov, version);
            &&& t.by_network_ip.dom().contains((slices[n].0, v.ip))
            &&& t.by_network_ip[(slices[n].0, v.ip)] == v
        }),
    decreases slices.len(),
{
    let d = slices.drop_last();
    let last = slices.last();
    let k = (slices[n].0, v.ip);
    lemma_slice_at(tables_of(d, ov, version), last.0, last.1, ov, k);
    if n < slices.len() - 1 {
        assert forall|a: int, b: int|
            #![trigger d[a], d[b]]
            0 <= a < d.len() && 0 <= b < d.len() && d[a].0 == d[b].0 implies a == b by {
            assert(slices[a].0 == slices[b].0);
        }
        assert(in_join_order(d)) by {
            assert forall|a: int, b: int|
                #![trigger d[a], d[b]]
                0 <= a < b < d.len() implies super::slices::joined_before(d[a], d[b]) by {
                assert(super::slices::joined_before(slices[a], slices[b]));
            }
        }
        assert(d[n] == slices[n]);
        law_network_address(d, ov, version, n, i, v);
        assert(slices[slices.len() - 1].0 != slices[n].0);
    }
}

/// Outbound an address means the member of the network that was joined first: where no
/// network before it has the address, every network after it leaves it alone.
pub proof fn law_outbound_address(
    slices: Seq<(u128, NetworkSlice)>,
    ov: Overrides,
    version: u64,
    n: int,
    i: int,
    v: PeerView,
)
    requires
        0 <= n < slices.len(),
        0 <= i < slices[n].1.peers@.len(),
        member(slices[n].1.peers@[i], slices[n].0, slices[n].1.network_name@, ov) == Some(v),
        sole_at(slices[n].1.peers@, i, v.ip, slices[n].0, slices[n].1.network_name@, ov),
        !tables_of(slices.take(n), ov, version).by_ip.dom().contains(v.ip),
    ensures
        ({
            let t = tables_of(slices, ov, version);
            &&& t.by_ip.dom().contains(v.ip)
            &&& t.by_ip[v.ip] == v
        }),
{
    let a = slices.take(n + 1);
    assert(a.drop_last() =~= slices.take(n));
    assert(a.last() == slices[n]);
    lemma_slice_at(tables_of(slices.take(n), ov, version), slices[n].0, slices[n].1, ov, (
        slices[n].0,
        v.ip,
    ));
    law_first_joined_wins(a, slices.skip(n + 1), ov, version);
    assert(a + slices.skip(n + 1) =~= slices);
}

/// The networks of a table, in the order in which they were joined, where there are two.
proof fn lemma_two_slices(
    s: Seq<(u128, NetworkSlice)>,
    a: u128,
    x: NetworkSlice,
    b: u128,
    y: NetworkSlice,
)
    requires
        in_join_order(s),
        a != b,
        x.join_index < y.join_index,
        map_of(s) == Map::<u128, NetworkSlice>::empty().insert(a, x).insert(b, y),
    ensures
        s == seq![(a, x), (b, y)],
{
    lemma_key_count(s);
    let m = Map::<u128, NetworkSlice>::empty().insert(a, x).insert(b, y);
    assert(m.dom() =~= Set::<u128>::empty().insert(a).insert(b));
    assert(s.len() == 2);
    lemma_slot(s, 0);
    lemma_slot(s, 1);
    assert(super::slices::joined_before(s[0], s[1]));
    assert(s[0].0 != s[1].0);
    assert(s =~= seq![(a, x), (b, y)]);
}

/// Where two networks are joined and each has a member at the same address, packets for
/// the address go to the member of the network that was joined first, and within each
/// network the address still means its own member. The order of the two calls that put
/// the networks there does not matter.
pub proof fn law_first_joined_wins_over_two(
    t: RoutingTable,
    a: u128,
    x: NetworkSlice,
    i: int,
    v: PeerView,
    b: u128,
    y: NetworkSlice,
    j: int,
    w: PeerView,
)
    requires
        t.wf(),
        a != b,
        t.networks() == Map::<u128, NetworkSlice>::empty().insert(a, x).insert(b, y),
        x.join_index < y.join_index,
        0 <= i < x.peers@.len(),
        0 <= j < y.peers@.len(),
        member(x.peers@[i], a, x.network_name@, t.manual()) == Some(v),
        member(y.peers@[j], b, y.network_name@, t.manual()) == Some(w),
        sole_at(x.peers@, i, v.ip, a, x.network_name@, t.manual()),
        sole_at(y.peers@, j, w.ip, b, y.network_name@, t.manual()),
        v.ip == w.ip,
    ensures
        carrier(t.tables@, t.synths(), v.ip) == Some(v),
        t.tables@.by_network_ip.dom().contains((a, v.ip)),
        t.tables@.by_network_ip[(a, v.ip)] == v,
        t.tables@.by_network_ip.dom().contains((b, v.ip)),
        t.tables@.by_network_ip[(b, v.ip)] == w,
{
    let s = t.slices@;
    lemma_two_slices(s, a, x, b, y);
    assert(s[0] == (a, x) && s[1] == (b, y));
    law_network_address(s, t.manual(), t.tables.version, 0, i, v);
    law_network_address(s, t.manual(), t.tables.version, 1, j, w);
    assert(s.take(0) =~= Seq::empty());
    law_outbound_address(s, t.manual(), t.tables.version, 0, i, v);
}

/// The text is in lower case and does not end in a dot.
pub open spec fn plain(s: Seq<char>) -> bool {
    lowered(s) == s && (s.len() > 0 ==> s.last() != '.')
}

/// The full name of a member.
pub open spec fn full_name(t: TablesView, v: PeerView) -> Seq<char> {
    dotted(qualified(lowered(v.hostname), v.network_name), t.dns_suffix)
}

/// The two names are one to DNS: case and the dots at the end do not count.
pub open spec fn same_name(a: Seq<char>, b: Seq<char>) -> bool {
    lowered(without_dots(a)) == lowered(without_dots(b))
}

proof fn lemma_lowered_dotted(a: Seq<char>, b: Seq<char>)
    requires
        lowered(a) == a,
        lowered(b) == b,
    ensures
        lowered(dotted(a, b)) == dotted(a, b),
{
    let d = dotted(a, b);
    assert forall|i: int| 0 <= i < d.len() implies #[trigger] crate::text::lower(d[i]) == d[i] by {
        if i < a.len() {
            assert(lowered(a)[i] == a[i]);
            assert(d[i] == a[i]);
        } else if i > a.len() {
            assert(lowered(b)[i - a.len() - 1] == b[i - a.len() - 1]);
            assert(d[i] == b[i - a.len() - 1]);
        }
    }
    assert(lowered(d) =~= d);
}

/// The full name of a member, however it is written, is read as its hostname within its
/// network.
proof fn lemma_full_name(t: TablesView, v: PeerView, name: Seq<char>)
    requires
        v.hostname.len() > 0,
        plain(lowered(v.hostname)),
        plain(v.network_name),
        plain(t.dns_suffix),
        same_name(name, full_name(t, v)),
    ensures
        bare_name(t, name) == qualified(lowered(v.hostname), v.network_name),
{
    let host = lowered(v.hostname);
    let q = qualified(host, v.network_name);
    let full = full_name(t, v);
    if v.network_name.len() > 0 {
        lemma_lowered_dotted(host, v.network_name);
        assert(q.last() == v.network_name.last());
    } else {
        assert(q.last() == host.last());
    }
    lemma_lowered_dotted(q, t.dns_suffix);
    assert(without_dots(q) == q);
    let tail = dotted(Seq::empty(), t.dns_suffix);
    let lower = lowered(without_dots(name));
    if t.dns_suffix.len() == 0 {
        assert(full =~= q.push('.'));
        assert(full.drop_last() =~= q);
        assert(without_dots(full) == q);
        assert(lower == q);
        assert(tail =~= seq!['.']);
        assert(without_suffix(q, tail) is None) by {
            if q.skip(q.len() - 1) == tail {
                assert(q.skip(q.len() - 1)[0] == q.last());
            }
        }
    } else {
        assert(full.last() == t.dns_suffix.last());
        assert(without_dots(full) == full);
        assert(lower == full);
        assert(full.skip(full.len() - tail.len()) =~= tail);
        assert(full.take(full.len() - tail.len()) =~= q);
        assert(without_suffix(full, tail) == Some(q));
    }
}

/// Names and addresses lead back to each other. The name that DNS gives for the address
/// of a member is answered with that address, where no member at another address has
/// that name; and the address that it gives for a member's name is answered with that
/// member's full name, where packets for the address go to that member.
pub proof fn law_names_and_addresses(t: TablesView, v: PeerView, name: Seq<char>, r: Option<u32>)
    requires
        t.by_network_ip.dom().contains((v.network_id, v.ip)),
        t.by_network_ip[(v.network_id, v.ip)] == v,
        t.by_ip.dom().contains(v.ip),
        t.by_ip[v.ip] == v,
        v.hostname.len() > 0,
        plain(lowered(v.hostname)),
        plain(v.network_name),
        plain(t.dns_suffix),
        forall|k: (u128, u32)| #[trigger]
            is_named(t, bare_name(t, name), k) ==> t.by_network_ip[k].ip == v.ip,
    ensures
        name_answer(t, v.ip) == Some(full_name(t, v)),
        answers_to(v, bare_name(t, full_name(t, v))),
        same_name(name, full_name(t, v)) ==> (address_answer(t, name, r) <==> r == Some(v.ip)),
        answers_to(v, bare_name(t, name)) ==> (address_answer(t, name, r) <==> r == Some(v.ip)),
{
    lemma_full_name(t, v, full_name(t, v));
    if same_name(name, full_name(t, v)) {
        lemma_full_name(t, v, name);
    }
    if answers_to(v, bare_name(t, name)) {
        assert(is_named(t, bare_name(t, name), (v.network_id, v.ip)));
    }
}

/// No member's hostname holds a dot.
pub open spec fn dotless(t: TablesView) -> bool {
    forall|k: (u128, u32)| #[trigger]
        t.by_network_ip.dom().contains(k) ==> !t.by_network_ip[k].hostname.contains('.')
}

/// No two members share a hostname, whatever its case, within networks of one name; and
/// one whose network has no name shares it with no member at all.
pub open spec fn told_apart(t: TablesView) -> bool {
    forall|j: (u128, u32), k: (u128, u32)|
        #![trigger t.by_network_ip.dom().contains(j), t.by_network_ip.dom().contains(k)]
        t.by_network_ip.dom().contains(j) && t.by_network_ip.dom().contains(k)
            && t.by_network_ip[j].hostname.len() > 0 && lowered(t.by_network_ip[j].hostname)
            == lowered(t.by_network_ip[k].hostname) && (t.by_network_ip[j].network_name
            == t.by_network_ip[k].network_name || t.by_network_ip[j].network_name.len() == 0)
            ==> j == k
}

proof fn lemma_lowered_dotless(s: Seq<char>)
    requires
        !s.contains('.'),
    ensures
        forall|i: int| 0 <= i < s.len() ==> #[trigger] lowered(s)[i] != '.',
{
    assert forall|i: int| 0 <= i < s.len() implies #[trigger] lowered(s)[i] != '.' by {
        assert(s[i] != '.');
    }
}

/// A text without a dot before a dot is where the text before the first dot ends.
proof fn lemma_first_part(a: Seq<char>, b: Seq<char>, c: Seq<char>, d: Seq<char>)
    requires
        dotted(a, b) == dotted(c, d),
        forall|i: int| 0 <= i < a.len() ==> #[trigger] a[i] != '.',
        forall|i: int| 0 <= i < c.len() ==> #[trigger] c[i] != '.',
    ensures
        a == c,
        b == d,
{
    let (x, y) = (dotted(a, b), dotted(c, d));
    assert(x[a.len() as int] == '.');
    assert(y[c.len() as int] == '.');
    if a.len() < c.len() {
        assert(y[a.len() as int] == c[a.len() as int]);
    } else if c.len() < a.len() {
        assert(x[c.len() as int] == a[c.len() as int]);
    }
    assert forall|i: int| 0 <= i < a.len() implies a[i] == c[i] by {
        assert(x[i] == a[i]);
        assert(y[i] == c[i]);
    }
    assert(a =~= c);
    assert(x.len() == a.len() + 1 + b.len());
    assert(y.len() == c.len() + 1 + d.len());
    assert forall|i: int| 0 <= i < b.len() implies b[i] == d[i] by {
        assert(x[a.len() + 1 + i] == b[i]);
        assert(y[a.len() + 1 + i] == d[i]);
    }
    assert(b =~= d);
}

/// What DNS answers for the address of a member leads back to it: the name that it gives
/// for the address, in whatever case and with or without dots at its end, is answered with
/// that address. The members are told apart by their names, and hostnames hold no dot.
pub proof fn law_reverse_name_leads_back(
    t: TablesView,
    v: PeerView,
    name: Seq<char>,
    r: Option<u32>,
)
    requires
        t.by_network_ip.dom().contains((v.network_id, v.ip)),
        t.by_network_ip[(v.network_id, v.ip)] == v,
        t.by_ip.dom().contains(v.ip),
        t.by_ip[v.ip] == v,
        v.hostname.len() > 0,
        dotless(t),
        told_apart(t),
        plain(v.network_name),
        plain(t.dns_suffix),
        same_name(name, full_name(t, v)),
    ensures
        name_answer(t, v.ip) == Some(full_name(t, v)),
        address_answer(t, name, r) <==> r == Some(v.ip),
{
    let at = (v.network_id, v.ip);
    let host = lowered(v.hostname);
    lemma_lowered_dotless(v.hostname);
    assert(lowered(host) =~= host) by {
        assert forall|i: int| 0 <= i < host.len() implies #[trigger] lowered(host)[i] == host[i] by {
            assert(host[i] == crate::text::lower(v.hostname[i]));
        }
    }
    assert(host[host.len() - 1] != '.');
    lemma_full_name(t, v, name);
    let q = qualified(host, v.network_name);
    assert forall|k: (u128, u32)| #[trigger] is_named(t, q, k) implies t.by_network_ip[k].ip
        == v.ip by {
        let w = t.by_network_ip[k];
        let other = lowered(w.hostname);
        assert(t.by_network_ip.dom().contains(at) && t.by_network_ip.dom().contains(k));
        lemma_lowered_dotless(w.hostname);
        if v.network_name.len() == 0 {
            if q != other {
                assert(q[other.len() as int] == '.');
            }
            assert(other == host);
        } else {
            assert(q[host.len() as int] == '.');
            if q == other {
                assert(other[host.len() as int] != '.');
            }
            assert(w.network_name.len() > 0);
            lemma_first_part(host, v.network_name, other, w.network_name);
        }
        assert(at == k);
    }
    law_names_and_addresses(t, v, name, r);
}

} // verus!
