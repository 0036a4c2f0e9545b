//! What the answers of the agent mean.

use super::direct::{
    action_of, direction_of, goes_by, idle_stats, is_listing, protocol_of, rule_fault, PendingPeer,
};
use super::dispatch::{first_with, has_transfer, merged};
use super::errors::code_for;
use super::order::{lemma_before_order, text_before};
use super::protocol::{
    DirectPendingInfo, IpcErrorCode, PeerLite, RoutesInfo, SshRecordingInfo, SshSessionInfo,
    StatusInfo, TransferInfo,
};
use super::routes::{are_routes, byte_prefix, is_hostname, is_subnet, Membership};
use super::serve::{denoted, is_self, serve_name};
use super::ssh::{
    either, field_of, is_recording, is_session, unquoted_back, unquoted_front, JsonValue,
};
use super::status::{
    expiry_of, is_lite, is_status, online_count, others, secs_until, AgentFacts, Moment,
};
use super::transport::socket_path;
use crate::endpoint::EndpointId;
use crate::ip::{dotted_quad, law_addresses_are_written_apart, octet};
use crate::numerals::{law_decimal_numbers, law_parts_are_found, numeral};
use crate::policy::denylog::text_of;
use crate::policy::firewall::{FirewallAction, FirewallDirection};
use crate::policy::rules::Protocol;
use crate::pool::model::PeerConnState;
use crate::pool::records::PeerRecord;
use crate::pool::shared::Shared;
use crate::routing::lookup::{carrier, peer_named};
use crate::routing::model::TablesView;
use crate::routing::types::{PeerInfo, PeerView, SplitTunnelMode};
use crate::text::{contains_text, lowered};
use std::sync::Arc;
use vstd::prelude::*;

verus! {

/// An address is written as its four bytes in decimal, the highest first, with dots between.
pub proof fn law_written_address(a: u8, b: u8, c: u8, d: u8)
    ensures
        dotted_quad((a * 16_777_216 + b * 65_536 + c * 256 + d) as u32) == numeral(
            a as nat,
            10,
            false,
        ) + seq!['.'] + numeral(b as nat, 10, false) + seq!['.'] + numeral(c as nat, 10, false)
            + seq!['.'] + numeral(d as nat, 10, false),
{
    let ip = (a * 16_777_216 + b * 65_536 + c * 256 + d) as u32;
    lemma_bytes_of_an_address(a, b, c, d);
    law_decimal_numbers(a as nat);
    law_decimal_numbers(b as nat);
    law_decimal_numbers(c as nat);
    law_decimal_numbers(d as nat);
}

proof fn lemma_bytes_of_an_address(a: u8, b: u8, c: u8, d: u8)
    ensures
        ({
            let ip = (a * 16_777_216 + b * 65_536 + c * 256 + d) as u32;
            octet(ip, 0) == a && octet(ip, 1) == b && octet(ip, 2) == c && octet(ip, 3) == d
        }),
{
    let n: int = a * 16_777_216 + b * 65_536 + c * 256 + d;
    let m: int = b * 65_536 + c * 256 + d;
    assert(n == a * 16_777_216 + m && 0 <= m < 16_777_216);
    lemma_quotient(n, 16_777_216, a as int, m);
    lemma_quotient(n, 65_536, a * 256 + b, c * 256 + d);
    lemma_quotient(n, 256, a * 65_536 + b * 256 + c, d as int);
    lemma_quotient(a * 256 + b, 256, a as int, b as int);
    lemma_quotient(a * 65_536 + b * 256 + c, 256, a * 256 + b, c as int);
}

proof fn lemma_quotient(x: int, m: int, q: int, r: int)
    requires
        0 <= r < m,
        x == q * m + r,
    ensures
        x / m == q,
        x % m == r,
{
    vstd::arithmetic::div_mod::lemma_fundamental_div_mod_converse(x, m, q, r);
}

/// The peers that are online are counted one by one.
pub proof fn law_online_peers(v: Seq<PeerLite>, p: PeerLite)
    ensures
        online_count(v.push(p)) == online_count(v) + (if p.online == Some(true) {
            1int
        } else {
            0
        }),
        online_count(Seq::empty()) == 0,
        online_count(v) <= v.len(),
    decreases v.len(),
{
    assert(v.push(p).drop_last() =~= v);
    if v.len() > 0 {
        law_online_peers(v.drop_last(), v.last());
    }
}

/// The seconds that are left until a moment are whole ones: it comes after that many and
/// before one more; none are left once it has passed.
pub proof fn law_seconds_left(at: Moment, now: Moment)
    requires
        at.1 < 1_000_000_000,
        now.1 < 1_000_000_000,
    ensures
        ({
            let n = secs_until(at, now);
            let left = (at.0 - now.0) * 1_000_000_000 + at.1 - now.1;
            &&& left <= 0 ==> n == 0
            &&& left > 0 ==> n * 1_000_000_000 <= left < (n + 1) * 1_000_000_000
        }),
{
}

/// A peer is shown as online exactly while its connection is open, with the time since it
/// was last active in seconds; it is kept alive where all are, or where it is by itself.
pub proof fn law_peer_as_shown(
    l: PeerLite,
    p: PeerInfo,
    recs: Map<EndpointId, PeerRecord>,
    sh: Shared,
    rtt: Map<Seq<char>, u64>,
    live: Seq<u64>,
    now: u64,
)
    requires
        is_lite(l, p, recs, sh, rtt, live, now),
        recs.dom().contains(p.endpoint),
        recs[p.endpoint].slot is Some,
    ensures
        ({
            let s = recs[p.endpoint].slot->0;
            &&& l.online == Some(s.conn is Some && live.contains(s.conn->0))
            &&& now >= s.last_activity ==> l.last_seen_secs_ago is Some
                && l.last_seen_secs_ago->0 * 1_000_000_000 <= now - s.last_activity < (
            l.last_seen_secs_ago->0 + 1) * 1_000_000_000
            &&& s.peer_keep_alive ==> l.keep_alive == Some(true)
            &&& sh.keep_alive ==> l.keep_alive == Some(true)
            &&& s.state == PeerConnState::Blocked ==> text_of(l.conn_state) == Some("blocked"@)
            &&& s.state == PeerConnState::Connected ==> text_of(l.conn_state) == Some(
                "connected"@,
            )
            &&& s.state == PeerConnState::Backoff ==> text_of(l.conn_state) == Some("backoff"@)
            &&& rtt.dom().contains(p.endpoint_hex@) ==> l.latency_bits == Some(
                rtt[p.endpoint_hex@],
            )
            &&& l.hostname@ == p.hostname@
            &&& l.endpoint_id@ == p.endpoint_hex@
            &&& l.ip@ == dotted_quad(p.ip)
            &&& l.bytes_in == Some(sh.of(p.endpoint).bytes_in)
            &&& l.bytes_out == Some(sh.of(p.endpoint).bytes_out)
        }),
{
}

/// This node is not among its peers; everybody else is.
pub proof fn law_peers_are_the_others(ps: Seq<Arc<PeerInfo>>, p: Arc<PeerInfo>, me: Seq<char>)
    ensures
        others(ps.push(p), me) == (if p.endpoint_hex@ == me {
            others(ps, me)
        } else {
            others(ps, me).push(p)
        }),
        others(Seq::empty(), me).len() == 0,
{
    reveal(Seq::filter);
    assert(ps.push(p).drop_last() =~= ps);
}

/// A text denotes a peer by its address, else by its name in any case, else by its endpoint.
pub proof fn law_text_denotes_a_peer(
    t: TablesView,
    synths: Map<u32, Arc<PeerInfo>>,
    host: Seq<char>,
    ip: u32,
    r: Option<PeerView>,
    s: Option<PeerView>,
)
    requires
        denoted(t, synths, dotted_quad(ip), r),
        denoted(t, synths, host, s),
    ensures
        r == carrier(t, synths, ip),
        (forall|x: u32| #[trigger] dotted_quad(x) != host) && t.by_hostname.dom().contains(
            lowered(host),
        ) ==> s == Some(t.by_hostname[lowered(host)]),
        (forall|x: u32| #[trigger] dotted_quad(x) != host) && peer_named(t, lowered(host)) is None
            && t.by_endpoint.dom().contains(host) ==> s == Some(t.by_endpoint[host]),
        (forall|x: u32| #[trigger] dotted_quad(x) != host) && peer_named(t, lowered(host)) is None
            && !t.by_endpoint.dom().contains(host) ==> s is None,
{
    assert forall|x: u32| #[trigger] dotted_quad(x) == dotted_quad(ip) implies x == ip by {
        law_addresses_are_written_apart(x, ip);
    }
}

/// A node pings itself where the peer has its endpoint, in any case, or its address.
pub proof fn law_ping_of_itself(p: PeerView, hex: Seq<char>, ip: u32)
    ensures
        is_self(p, hex, ip) <==> lowered(p.endpoint_hex) == lowered(hex) || p.ip == ip,
        serve_name(None, hex, p.hostname) == hex + "."@ + p.hostname + ".tunnet"@,
        serve_name(Some(hex), p.hostname, hex) == hex,
{
}

/// The words of a firewall rule.
pub proof fn law_words_of_a_rule(s: Seq<char>)
    ensures
        direction_of(s) == Some(FirewallDirection::In) <==> s == "in"@ || s == "inbound"@,
        direction_of(s) == Some(FirewallDirection::Out) <==> s == "out"@ || s == "outbound"@,
        action_of(s) == Some(FirewallAction::Allow) <==> s == "allow"@,
        action_of(s) == Some(FirewallAction::Deny) <==> s == "deny"@,
        action_of(s) == Some(FirewallAction::Reject) <==> s == "reject"@,
        protocol_of(s) == Some(Protocol::Tcp) <==> lowered(s) == "tcp"@,
        protocol_of(s) == Some(Protocol::Udp) <==> lowered(s) == "udp"@,
        protocol_of(s) == Some(Protocol::Icmp) <==> lowered(s) == "icmp"@,
        protocol_of(s) == Some(Protocol::Any) <==> lowered(s) == "any"@,
        protocol_of(s) is Some ==> protocol_of(s) == Some(Protocol::Tcp) || protocol_of(s) == Some(
            Protocol::Udp,
        ) || protocol_of(s) == Some(Protocol::Icmp) || protocol_of(s) == Some(Protocol::Any),
{
    reveal_strlit("in");
    reveal_strlit("inbound");
    reveal_strlit("out");
    reveal_strlit("outbound");
    reveal_strlit("allow");
    reveal_strlit("deny");
    reveal_strlit("reject");
    reveal_strlit("tcp");
    reveal_strlit("udp");
    reveal_strlit("icmp");
    reveal_strlit("any");
    assert("in"@[0] == 'i' && "inbound"@[0] == 'i' && "out"@[0] == 'o' && "outbound"@[0] == 'o');
    assert("allow"@[0] == 'a' && "deny"@[0] == 'd' && "reject"@[0] == 'r');
    assert("tcp"@[0] == 't' && "udp"@[0] == 'u' && "icmp"@[0] == 'i' && "any"@[0] == 'a');
}

/// A pending peer goes by its endpoint id and by its hostname, and by nothing else.
pub proof fn law_names_of_a_pending_peer(p: PendingPeer, id: Seq<char>)
    ensures
        goes_by(p, p.endpoint_id@),
        goes_by(p, p.hostname@),
        goes_by(p, id) ==> id == p.endpoint_id@ || id == p.hostname@,
{
}

/// An error is told by the words in it, in any case: what is not found, then what is not
/// allowed, then what is not enrolled, then the data plane, then what is invalid.
pub proof fn law_error_is_told_by_its_words(a: Seq<char>, b: Seq<char>)
    ensures
        code_for(a + "not found"@ + b) == IpcErrorCode::NotFound,
        code_for(a + "no peer"@ + b) == IpcErrorCode::NotFound,
        code_for(a + "no pending"@ + b) == IpcErrorCode::NotFound,
        ({
            let c = code_for(a + "denied"@ + b);
            c == IpcErrorCode::Denied || c == IpcErrorCode::NotFound
        }),
        ({
            let c = code_for(a + "only the coordinator"@ + b);
            c == IpcErrorCode::Denied || c == IpcErrorCode::NotFound
        }),
        ({
            let c = code_for(a + "not enrolled"@ + b);
            c == IpcErrorCode::NotEnrolled || c == IpcErrorCode::Denied || c
                == IpcErrorCode::NotFound
        }),
        ({
            let c = code_for(a + "data plane"@ + b);
            c != IpcErrorCode::InvalidRequest && c != IpcErrorCode::Internal
        }),
        code_for(a + "invalid"@ + b) != IpcErrorCode::Internal,
        code_for(Seq::empty()) == IpcErrorCode::Internal,
{
    lemma_word(a, "not found"@, b);
    lemma_word(a, "no peer"@, b);
    lemma_word(a, "no pending"@, b);
    lemma_word(a, "denied"@, b);
    lemma_word(a, "only the coordinator"@, b);
    lemma_word(a, "not enrolled"@, b);
    lemma_word(a, "data plane"@, b);
    lemma_word(a, "invalid"@, b);
    reveal_strlit("not found");
    reveal_strlit("no peer");
    reveal_strlit("no pending");
    reveal_strlit("denied");
    reveal_strlit("only the coordinator");
    reveal_strlit("not enrolled");
    reveal_strlit("data plane");
    reveal_strlit("invalid");
    reveal_strlit("missing");
    reveal_strlit("unauthorized");
    reveal_strlit("permission");
    reveal_strlit("reject");
    reveal_strlit("requires managed");
    reveal_strlit("requires direct");
    reveal_strlit("no direct networks");
    reveal_strlit("not connected to a network");
    reveal_strlit("must be");
    reveal_strlit("parse");
    reveal_strlit("usage:");
    assert(lowered("not found"@) =~= "not found"@);
    assert(lowered("no peer"@) =~= "no peer"@);
    assert(lowered("no pending"@) =~= "no pending"@);
    assert(lowered("denied"@) =~= "denied"@);
    assert(lowered("only the coordinator"@) =~= "only the coordinator"@);
    assert(lowered("not enrolled"@) =~= "not enrolled"@);
    assert(lowered("data plane"@) =~= "data plane"@);
    assert(lowered("invalid"@) =~= "invalid"@);
}

proof fn lemma_word(a: Seq<char>, w: Seq<char>, b: Seq<char>)
    ensures
        contains_text(lowered(a + w + b), lowered(w)),
{
    assert(lowered(a + w + b) =~= lowered(a) + lowered(w) + lowered(b));
    law_parts_are_found(lowered(a), lowered(w), lowered(b));
}

/// The field of an object is found by its name, the first of that name; of two names the
/// first counts.
pub proof fn law_fields_of_an_object(
    o: Seq<(String, JsonValue)>,
    name: Seq<char>,
    other: Seq<char>,
    i: int,
)
    requires
        0 <= i <= o.len(),
        forall|j: int| 0 <= j < i ==> (#[trigger] o[j]).0@ != name,
        i < o.len() ==> o[i].0@ == name,
    ensures
        field_of(o, name) == (if i < o.len() {
            Some(o[i].1)
        } else {
            None
        }),
        i < o.len() ==> either(o, name, other) == Some(o[i].1),
        i == o.len() ==> either(o, name, other) == field_of(o, other),
    decreases o.len(),
{
    if o.len() > 0 && i > 0 {
        let t = o.drop_first();
        assert(o[0].0@ != name);
        assert forall|j: int| 0 <= j < i - 1 implies (#[trigger] t[j]).0@ != name by {
            assert(t[j] == o[j + 1]);
        }
        law_fields_of_an_object(t, name, other, i - 1);
    }
}

/// A text in quotes is read without them.
pub proof fn law_quotes_come_off(s: Seq<char>)
    requires
        s.len() > 0,
        s[0] != '"',
        s.last() != '"',
    ensures
        unquoted_back(unquoted_front(seq!['"'] + s + seq!['"'])) == s,
        unquoted_back(unquoted_front(s)) == s,
{
    let q = seq!['"'] + s + seq!['"'];
    let t = s + seq!['"'];
    reveal_with_fuel(unquoted_front, 3);
    reveal_with_fuel(unquoted_back, 3);
    assert(q.drop_first() =~= t);
    assert(t[0] == s[0]);
    assert(t.drop_last() =~= s);
}

/// Texts are in the order of a dictionary: the first character in which they differ decides,
/// and the start of a text comes before it.
pub proof fn law_order_of_texts(p: Seq<char>, a: char, b: char, x: Seq<char>, y: Seq<char>)
    requires
        a < b,
    ensures
        text_before(p + seq![a] + x, p + seq![b] + y),
        !text_before(p + seq![b] + y, p + seq![a] + x),
        text_before(p, p + seq![a] + x),
        !text_before(p, p),
    decreases p.len(),
{
    let l = p + seq![a] + x;
    let r = p + seq![b] + y;
    if p.len() == 0 {
        assert(l[0] == a);
        assert(r[0] == b);
    } else {
        let q = p.drop_first();
        law_order_of_texts(q, a, b, x, y);
        assert(l.drop_first() =~= q + seq![a] + x);
        assert(r.drop_first() =~= q + seq![b] + y);
        assert(l[0] == p[0] && r[0] == p[0]);
    }
    lemma_before_order(l, r, l);
    lemma_before_order(p, p, p);
}

/// The transfers that are listed: each id once, in order, and an active transfer before one
/// with its id that waits.
pub proof fn law_listed_transfers(
    active: Seq<TransferInfo>,
    pending: Seq<TransferInfo>,
    v: Seq<TransferInfo>,
    i: int,
)
    requires
        merged(active + pending, v),
        0 <= i < active.len(),
        forall|j: int| 0 <= j < i ==> (#[trigger] active[j]).transfer_id@ != active[i].transfer_id@,
    ensures
        v.contains(active[i]),
        forall|a: int, b: int|
            #![trigger v[a], v[b]]
            0 <= a < b < v.len() ==> v[a].transfer_id@ != v[b].transfer_id@,
        forall|j: int|
            0 <= j < pending.len() ==> has_transfer(v, (#[trigger] pending[j]).transfer_id@),
{
    let all = active + pending;
    let t = active[i];
    assert(all[i] == t);
    let n = choose|n: int| 0 <= n < v.len() && (#[trigger] v[n]).transfer_id@ == t.transfer_id@;
    assert(first_with(all, v[n].transfer_id@, v[n]));
    let m = choose|m: int|
        0 <= m < all.len() && #[trigger] all[m] == v[n] && v[n].transfer_id@ == t.transfer_id@
            && forall|j: int| 0 <= j < m ==> (#[trigger] all[j]).transfer_id@ != t.transfer_id@;
    if m < i {
        assert(all[m] == active[m]);
    }
    assert(m == i);
    assert forall|a: int, b: int|
        #![trigger v[a], v[b]]
        0 <= a < b < v.len() implies v[a].transfer_id@ != v[b].transfer_id@ by {
        lemma_before_order(v[a].transfer_id@, v[b].transfer_id@, v[a].transfer_id@);
    }
    assert forall|j: int| 0 <= j < pending.len() implies has_transfer(
        v,
        (#[trigger] pending[j]).transfer_id@,
    ) by {
        assert(all[active.len() + j] == pending[j]);
    }
}

/// The start of an id of plain letters and digits is its first characters.
pub proof fn law_start_of_an_id(s: Seq<char>, n: nat)
    requires
        forall|i: int| 0 <= i < s.len() ==> (#[trigger] s[i]) as u32 <= 0x7f,
    ensures
        byte_prefix(s, n) == (if n <= s.len() {
            s.take(n as int)
        } else {
            s
        }),
    decreases s.len(),
{
    if s.len() > 0 {
        let t = s.drop_first();
        assert(s[0] as u32 <= 0x7f);
        assert forall|i: int| 0 <= i < t.len() implies (#[trigger] t[i]) as u32 <= 0x7f by {
            assert(t[i] == s[i + 1]);
        }
        if n > 0 {
            law_start_of_an_id(t, (n - 1) as nat);
        }
    }
    assert(byte_prefix(s, n) =~= (if n <= s.len() {
        s.take(n as int)
    } else {
        s
    }));
}

/// An expiry is told with the seconds that are left, where it can be read.
pub proof fn law_expiry_is_told(at: Option<String>, m: Option<Moment>, now: Moment)
    ensures
        at is Some && m is Some ==> expiry_of(at, m, now).0 == Some(at->0@) && expiry_of(
            at,
            m,
            now,
        ).1 == Some(secs_until(m->0, now)),
        at is None || m is None ==> expiry_of(at, m, now) == (None::<Seq<char>>, None::<u64>),
{
}

/// Routes are shown with their blocks in the usual form, and with the name of the gateway: its
/// hostname where it is a member, else the first eight characters of its id.
pub proof fn law_routes_as_shown(
    i: RoutesInfo,
    m: Membership,
    t: TablesView,
    me: Seq<char>,
    k: int,
)
    requires
        are_routes(i, Some(m), t, me),
        0 <= k < m.subnet_routes@.len(),
        forall|j: int|
            0 <= j < m.subnet_routes@[k].via_endpoint_id@.len() ==> (
            #[trigger] m.subnet_routes@[k].via_endpoint_id@[j]) as u32 <= 0x7f,
    ensures
        ({
            let r = m.subnet_routes@[k];
            let v = i.subnet_routes@[k];
            let id = r.via_endpoint_id@;
            &&& v.cidr@ == dotted_quad(r.cidr.addr) + seq!['/'] + numeral(
                r.cidr.prefix as nat,
                10,
                false,
            )
            &&& v.via_ip@ == dotted_quad(r.via_ip)
            &&& t.by_endpoint.dom().contains(id) ==> v.via_hostname@ == t.by_endpoint[id].hostname
            &&& !t.by_endpoint.dom().contains(id) && id.len() >= 8 ==> v.via_hostname@ == id.take(8)
            &&& v.via_endpoint_id@ == id
            &&& v.advertised_by_self == (id == me)
        }),
        i.subnet_routes@.len() == m.subnet_routes@.len(),
        i.hostname_routes@.len() == m.hostname_routes@.len(),
        i.exit_node is Some == t.exit_node is Some,
        m.split_tunnel_mode == SplitTunnelMode::Include <==> i.split_tunnel_mode@ == "include"@,
        m.split_tunnel_mode == SplitTunnelMode::Exclude <==> i.split_tunnel_mode@ == "exclude"@,
        m.split_tunnel_mode == SplitTunnelMode::Off <==> i.split_tunnel_mode@ == "off"@,
{
    let r = m.subnet_routes@[k];
    assert(is_subnet(i.subnet_routes@[k], r, t, me));
    law_decimal_numbers(r.cidr.prefix as nat);
    law_start_of_an_id(r.via_endpoint_id@, 8);
    reveal_strlit("/");
    reveal_strlit("include");
    reveal_strlit("exclude");
    reveal_strlit("off");
    assert("/"@ =~= seq!['/']);
    assert("include"@[0] == 'i' && "exclude"@[0] == 'e' && "off"@[0] == 'o');
}

/// A route to a name is shown with the name, its gateway, and the address behind it.
pub proof fn law_hostname_routes_as_shown(
    i: RoutesInfo,
    m: Membership,
    t: TablesView,
    me: Seq<char>,
    k: int,
)
    requires
        are_routes(i, Some(m), t, me),
        0 <= k < m.hostname_routes@.len(),
    ensures
        ({
            let r = m.hostname_routes@[k];
            let v = i.hostname_routes@[k];
            let id = r.via_endpoint_id@;
            &&& v.hostname@ == r.hostname@
            &&& v.is_wildcard == r.is_wildcard
            &&& v.via_ip@ == dotted_quad(r.via_ip)
            &&& v.via_endpoint_id@ == id
            &&& t.by_endpoint.dom().contains(id) ==> v.via_hostname@ == t.by_endpoint[id].hostname
            &&& v.target_ip is Some == r.target_ip is Some
            &&& r.target_ip is Some ==> v.target_ip->0@ == dotted_quad(r.target_ip->0)
        }),
{
    assert(is_hostname(i.hostname_routes@[k], m.hostname_routes@[k], t));
}

/// The socket of the agent is where the setting says; else in the runtime directory, whether
/// that is written with a final slash or without one; else in `/tmp`.
pub proof fn law_socket_of_the_agent(path: Seq<char>, dir: Seq<char>)
    requires
        dir.len() > 0,
        dir.last() != '/',
    ensures
        socket_path(Some(path), Some(dir)) == path,
        socket_path(None, Some(dir)) == dir + seq!['/'] + "tunnet-agent.sock"@,
        socket_path(None, Some(dir + seq!['/'])) == dir + seq!['/'] + "tunnet-agent.sock"@,
        socket_path(None, None) == "/tmp"@ + seq!['/'] + "tunnet-agent.sock"@,
{
    reveal_strlit("/tmp");
    assert("/tmp"@.last() == 'p');
    assert(dir.push('/') =~= dir + seq!['/']);
    assert((dir + seq!['/']).last() == '/');
    assert("/tmp"@.push('/') =~= "/tmp"@ + seq!['/']);
}

/// The status tells of the peers that it lists: how many there are, and how many are online.
/// A network without a name is called `default`.
pub proof fn law_status_as_shown(
    s: StatusInfo,
    f: AgentFacts,
    peers: Seq<PeerLite>,
    with_peers: bool,
    sh: Shared,
    expires: Option<Moment>,
    now: Moment,
)
    requires
        is_status(s, f, peers, with_peers, sh, expires, now),
    ensures
        s.peers_total == peers.len(),
        s.peers_online <= s.peers_total,
        with_peers ==> s.peers is Some && s.peers->0@ == peers,
        !with_peers ==> s.peers is None,
        s.ip@ == dotted_quad(f.ip),
        f.network_name is Some ==> s.network_name@ == f.network_name->0@,
        f.network_name is None ==> s.network_name@ == "default"@,
        s.relay_status@ == "connected"@ <==> f.tunnels > 0,
        s.relay_status@ == "disconnected"@ <==> f.tunnels == 0,
        s.mode is Some,
        s.mode->0@ == "direct"@ <==> f.direct,
        s.mode->0@ == "managed"@ <==> !f.direct,
        s.data_plane_up == Some(f.data_plane_up),
        s.uptime_secs == f.uptime_secs,
        s.hostname == f.hostname,
        s.endpoint_id == f.endpoint_id,
        s.agent_version == f.agent_version,
        s.snapshot_version == f.snapshot_version,
        s.keep_alive == Some(sh.keep_alive),
        f.firewall is None ==> s.firewall_drops is None,
        f.firewall is Some && f.firewall->0.packets_denied + f.firewall->0.packets_rejected
            <= u64::MAX ==> s.firewall_drops == Some(
            (f.firewall->0.packets_denied + f.firewall->0.packets_rejected) as u64,
        ),
{
    if peers.len() > 0 {
        law_online_peers(peers, peers[0]);
    } else {
        assert(peers =~= Seq::empty());
        law_online_peers(peers, arbitrary());
    }
    reveal_strlit("connected");
    reveal_strlit("disconnected");
    reveal_strlit("direct");
    reveal_strlit("managed");
    assert("connected"@[0] == 'c' && "disconnected"@[0] == 'd');
    assert("direct"@[0] == 'd' && "managed"@[0] == 'm');
}

/// Of a session, what has a name of two words may be written in camel case or in snake case.
pub proof fn law_session_is_read_in_either_case(
    i: SshSessionInfo,
    o: Seq<(String, JsonValue)>,
    user: JsonValue,
)
    requires
        is_session(i, o),
        user.as_str is Some,
    ensures
        field_of(o, "targetUser"@) == Some(user) ==> i.target_user@ == user.as_str->0@,
        field_of(o, "targetUser"@) is None && field_of(o, "target_user"@) == Some(user)
            ==> i.target_user@ == user.as_str->0@,
        field_of(o, "targetUser"@) is None && field_of(o, "target_user"@) is None
            ==> i.target_user@.len() == 0,
        field_of(o, "id"@) == Some(user) ==> i.id@ == user.as_str->0@,
        field_of(o, "status"@) == Some(user) ==> i.status@ == user.as_str->0@,
        field_of(o, "recorded"@) is None ==> !i.recorded,
        field_of(o, "recorded"@) == Some(user) ==> i.recorded == (user.as_bool == Some(true)),
        field_of(o, "durationMs"@) == Some(user) ==> i.duration_ms == user.as_u64,
        field_of(o, "srcEndpointId"@) == Some(user) ==> i.src_endpoint_id@ == user.as_str->0@,
        field_of(o, "dstEndpointId"@) == Some(user) ==> i.dst_endpoint_id@ == user.as_str->0@,
{
}

/// So it is with a recording, whose size is zero where none is given.
pub proof fn law_recording_is_read_in_either_case(
    i: SshRecordingInfo,
    o: Seq<(String, JsonValue)>,
    v: JsonValue,
)
    requires
        is_recording(i, o),
        v.as_str is Some,
        v.as_u64 is Some,
    ensures
        field_of(o, "sessionId"@) == Some(v) ==> i.session_id@ == v.as_str->0@,
        field_of(o, "sessionId"@) is None && field_of(o, "session_id"@) == Some(v)
            ==> i.session_id@ == v.as_str->0@,
        field_of(o, "byteSize"@) == Some(v) ==> i.byte_size == v.as_u64->0,
        field_of(o, "byteSize"@) is None && field_of(o, "byte_size"@) is None ==> i.byte_size == 0,
        field_of(o, "contentSha256"@) == Some(v) ==> i.content_sha256 is Some
            && i.content_sha256->0@ == v.as_str->0@,
{
}

/// A peer that waits is listed under its id and its name, with its address.
pub proof fn law_pending_peer_as_listed(i: DirectPendingInfo, p: PendingPeer)
    requires
        is_listing(i, p),
    ensures
        i.endpoint_id@ == p.endpoint_id@,
        i.hostname@ == p.hostname@,
        i.ipv4@ == dotted_quad(p.ip),
        i.collision_index == p.collision_index,
{
}

/// A firewall that does not run has counted nothing.
pub proof fn law_idle_firewall_counts_nothing(enabled: bool)
    ensures
        ({
            let s = idle_stats(enabled);
            &&& s.enabled == enabled
            &&& s.conntrack_entries == 0 && s.packets_allowed == 0 && s.packets_denied == 0
            &&& s.packets_rejected == 0 && s.suggested_rules == 0
        }),
{
}

/// What is wrong with a rule is its first part that cannot be read.
pub proof fn law_fault_of_a_rule(direction: Seq<char>, action: Seq<char>, protocol: Seq<char>)
    ensures
        direction_of(direction) is None ==> rule_fault(direction, action, protocol)
            == "direction must be 'in' or 'out'"@,
        direction_of(direction) is Some && action_of(action) is None ==> rule_fault(
            direction,
            action,
            protocol,
        ) == "action must be 'allow', 'deny', or 'reject'"@,
        direction_of(direction) is Some && action_of(action) is Some ==> rule_fault(
            direction,
            action,
            protocol,
        ) == "protocol must be tcp|udp|icmp|any"@,
{
}

} // verus!
