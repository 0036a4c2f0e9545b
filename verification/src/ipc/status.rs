//! What the agent says of itself.

use super::protocol::{
    ControlPlaneStatusInfo, DiagInfo, DnsStatusInfo, NetcheckInfo, NetcheckItem, OnDemandStatusInfo,
    PeerLite, StatusInfo,
};
use crate::chance::utc_now;
use crate::endpoint::EndpointId;
use crate::ip::{dotted_quad, ip_str};
use crate::names::NameTable;
use crate::policy::denylog::text_of;
use crate::policy::rules::texts;
use crate::pool::conn_pool::{has_slot, holds_id, is_live, ConnPool};
use crate::pool::model::{plus, PeerConnState};
use crate::pool::records::PeerRecord;
use crate::pool::shared::Shared;
use crate::pool::slot::{bump, state_name};
use crate::routing::table::{at_most, RoutingTable};
use crate::routing::tables::copy_texts;
use crate::routing::types::PeerInfo;
use crate::text::{copy_text, decimal, push_decimal, same_text};
use std::sync::Arc;
use vstd::prelude::*;
use vstd::string::*;

verus! {

/// The round-trip time of a peer, by its bits, where it was measured.
pub open spec fn rtt_of(rtt: Map<Seq<char>, u64>, hex: Seq<char>) -> Option<u64> {
    if rtt.dom().contains(hex) {
        Some(rtt[hex])
    } else {
        None
    }
}

/// The entry says what is known of the peer.
pub open spec fn is_lite(
    l: PeerLite,
    p: PeerInfo,
    recs: Map<EndpointId, PeerRecord>,
    sh: Shared,
    rtt: Map<Seq<char>, u64>,
    live: Seq<u64>,
    now: u64,
) -> bool {
    let known = has_slot(recs, p.endpoint);
    let s = recs[p.endpoint].slot->Some_0@;
    &&& l.ip@ == dotted_quad(p.ip)
    &&& l.hostname@ == p.hostname@
    &&& l.endpoint_id@ == p.endpoint_hex@
    &&& texts(l.tags@) == texts(p.tags@)
    &&& l.online == Some(known && is_live(recs[p.endpoint], live))
    &&& l.latency_bits == rtt_of(rtt, p.endpoint_hex@)
    &&& l.os is None
    &&& text_of(l.conn_state) == Some(
        state_name(
            if known {
                s.state
            } else {
                PeerConnState::Idle
            },
        ),
    )
    &&& text_of(l.path) == Some("unknown"@)
    &&& l.bytes_in == Some(sh.of(p.endpoint).bytes_in)
    &&& l.bytes_out == Some(sh.of(p.endpoint).bytes_out)
    &&& l.last_seen_secs_ago == (if !known {
        None
    } else if now >= s.last_activity {
        Some(((now - s.last_activity) / 1_000_000_000) as u64)
    } else {
        Some(0u64)
    })
    &&& l.keep_alive == Some(
        sh.keep_alive || sh.of(p.endpoint).keep_alive || (known && s.peer_keep_alive),
    )
    &&& text_of(l.ssh_host_key) == text_of(p.ssh_host_key)
}

/// The peers other than this node.
pub open spec fn others(ps: Seq<Arc<PeerInfo>>, self_id: Seq<char>) -> Seq<Arc<PeerInfo>> {
    ps.filter(|p: Arc<PeerInfo>| p.endpoint_hex@ != self_id)
}

fn peer_lite(
    p: &PeerInfo,
    pool: &mut ConnPool,
    sh: &Shared,
    rtt: &NameTable<u64>,
    live: &[u64],
    now: u64,
) -> (l: PeerLite)
    requires
        old(pool).wf(),
        rtt.wf(),
    ensures
        final(pool).wf(),
        final(pool).recs() == old(pool).recs(),
        final(pool).alpn@ == old(pool).alpn@,
        final(pool).local == old(pool).local,
        is_lite(l, *p, old(pool).recs(), *sh, rtt@, live@, now),
{
    let open = match pool.conn_of(p.endpoint) {
        Some(c) => holds_id(live, c),
        None => false,
    };
    let snap = pool.peer_snapshot(sh, p.endpoint, open, now);
    let (bytes_in, bytes_out) = sh.peer_bytes(p.endpoint);
    let latency_bits: Option<u64> = match rtt.get(p.endpoint_hex.as_str()) {
        Some(v) => Some(*v),
        None => None,
    };
    let last_seen_secs_ago: Option<u64> = if snap.last_activity_secs_ago == u64::MAX {
        None
    } else {
        Some(snap.last_activity_secs_ago)
    };
    PeerLite {
        ip: ip_str(p.ip),
        hostname: p.hostname.clone(),
        endpoint_id: p.endpoint_hex.clone(),
        tags: copy_texts(p.tags.as_slice()),
        online: Some(snap.live),
        latency_bits,
        os: None,
        conn_state: Some(snap.state),
        path: Some(snap.path),
        bytes_in: Some(bytes_in),
        bytes_out: Some(bytes_out),
        last_seen_secs_ago,
        keep_alive: Some(snap.keep_alive),
        ssh_host_key: copy_text(&p.ssh_host_key),
    }
}

/// What is known of the peers other than this node. `live` are the connections that are
/// open, and `rtt` the measured round-trip times.
pub fn peer_lites(
    peers: &[Arc<PeerInfo>],
    pool: &mut ConnPool,
    sh: &Shared,
    rtt: &NameTable<u64>,
    live: &[u64],
    self_id: &str,
    now: u64,
) -> (v: Vec<PeerLite>)
    requires
        old(pool).wf(),
        rtt.wf(),
    ensures
        final(pool).wf(),
        final(pool).recs() == old(pool).recs(),
        final(pool).alpn@ == old(pool).alpn@,
        final(pool).local == old(pool).local,
        v@.len() == others(peers@, self_id@).len(),
        forall|i: int|
            0 <= i < v@.len() ==> is_lite(
                #[trigger] v@[i],
                *others(peers@, self_id@)[i],
                old(pool).recs(),
                *sh,
                rtt@,
                live@,
                now,
            ),
{
    let mut v: Vec<PeerLite> = Vec::new();
    let mut i: usize = 0;
    proof {
        reveal(Seq::filter);
    }
    while i < peers.len()
        invariant
            pool.wf(),
            pool.recs() == old(pool).recs(),
            pool.alpn@ == old(pool).alpn@,
            pool.local == old(pool).local,
            rtt.wf(),
            i <= peers@.len(),
            v@.len() == others(peers@.take(i as int), self_id@).len(),
            forall|j: int|
                0 <= j < v@.len() ==> is_lite(
                    #[trigger] v@[j],
                    *others(peers@.take(i as int), self_id@)[j],
                    old(pool).recs(),
                    *sh,
                    rtt@,
                    live@,
                    now,
                ),
        decreases peers.len() - i,
    {
        proof {
            reveal(Seq::filter);
            assert(peers@.take(i + 1).drop_last() =~= peers@.take(i as int));
            assert(peers@.take(i + 1).last() == peers@[i as int]);
        }
        let p = &peers[i];
        if !same_text(p.endpoint_hex.as_str(), self_id) {
            let ghost before = v@;
            let l = peer_lite(p, pool, sh, rtt, live, now);
            v.push(l);
            proof {
                let o = others(peers@.take(i as int), self_id@);
                let n = others(peers@.take(i + 1), self_id@);
                assert(n =~= o.push(peers@[i as int]));
                assert forall|j: int| 0 <= j < v@.len() implies is_lite(
                    #[trigger] v@[j],
                    *n[j],
                    old(pool).recs(),
                    *sh,
                    rtt@,
                    live@,
                    now,
                ) by {
                    if j < before.len() {
                        assert(v@[j] == before[j]);
                        assert(n[j] == o[j]);
                    }
                }
            }
        }
        i += 1;
    }
    assert(peers@.take(i as int) =~= peers@);
    v
}

/// How many of the peers are online.
pub open spec fn online_count(v: Seq<PeerLite>) -> nat
    decreases v.len(),
{
    if v.len() == 0 {
        0
    } else {
        online_count(v.drop_last()) + (if v.last().online == Some(true) {
            1nat
        } else {
            0
        })
    }
}

fn count_online(v: &[PeerLite]) -> (n: usize)
    ensures
        n == online_count(v@),
{
    let mut n: usize = 0;
    let mut i: usize = 0;
    while i < v.len()
        invariant
            i <= v@.len(),
            n <= i,
            n == online_count(v@.take(i as int)),
        decreases v.len() - i,
    {
        proof {
            assert(v@.take(i + 1).drop_last() =~= v@.take(i as int));
        }
        if let Some(true) = v[i].online {
            n += 1;
        }
        i += 1;
    }
    assert(v@.take(i as int) =~= v@);
    n
}

/// A moment: whole seconds since the Unix epoch, and nanoseconds.
pub type Moment = (i64, u32);

/// The moment that an RFC 3339 text denotes.
pub uninterp spec fn moment_of(text: Seq<char>) -> Option<(i64, u32)>;

/// `chrono::DateTime::parse_from_rfc3339` reads a date and time; `timestamp` and
/// `timestamp_subsec_nanos` give it as seconds and nanoseconds.
#[verifier::external_body]
fn parse_moment(text: &str) -> (r: Option<(i64, u32)>)
    ensures
        r == moment_of(text@),
{
    let at = chrono::DateTime::parse_from_rfc3339(text).ok()?;
    Some((at.timestamp(), at.timestamp_subsec_nanos()))
}

/// Nanoseconds since the epoch.
pub open spec fn nanos(m: Moment) -> int {
    m.0 * 1_000_000_000 + m.1
}

/// The whole seconds from `now` to `at`, zero where it has passed.
pub open spec fn secs_until(at: Moment, now: Moment) -> u64 {
    if nanos(at) <= nanos(now) {
        0
    } else {
        ((nanos(at) - nanos(now)) / 1_000_000_000) as u64
    }
}

/// Whole seconds from one moment to another, zero where it has passed.
pub fn remaining_secs(at: Moment, now: Moment) -> (n: u64)
    ensures
        n == secs_until(at, now),
{
    let a: i128 = at.0 as i128 * 1_000_000_000 + at.1 as i128;
    let b: i128 = now.0 as i128 * 1_000_000_000 + now.1 as i128;
    if a <= b {
        0
    } else {
        let d: u128 = (a - b) as u128 / 1_000_000_000;
        d as u64
    }
}

/// What the firewall counted.
#[derive(Debug, Clone, Copy, PartialEq, Eq, Structural)]
pub struct FirewallStats {
    pub packets_denied: u64,
    pub packets_rejected: u64,
    pub conntrack_entries: usize,
}

/// What the agent knows of itself.
#[derive(Debug)]
pub struct AgentFacts {
    pub ip: u32,
    pub hostname: String,
    pub network_name: Option<String>,
    pub network_id: Option<String>,
    pub organization_id: Option<String>,
    pub endpoint_id: String,
    pub tunnels: usize,
    pub direct: bool,
    pub uptime_secs: u64,
    pub agent_version: String,
    pub snapshot_version: u64,
    pub data_plane_up: bool,
    pub firewall: Option<FirewallStats>,
    pub expires_at: Option<String>,
    pub control_url: Option<String>,
    pub control: Option<ControlPlaneStatusInfo>,
}

pub open spec fn text_or(s: Option<String>, other: Seq<char>) -> Seq<char> {
    match s {
        Some(t) => t@,
        None => other,
    }
}

fn or_text(s: Option<String>, other: &str) -> (r: String)
    ensures
        r@ == text_or(s, other@),
{
    match s {
        Some(t) => t,
        None => other.to_owned(),
    }
}

/// When the machine expires, once the text was read: an expiry that cannot be read is not
/// told.
pub open spec fn expiry_of(at: Option<String>, m: Option<Moment>, now: Moment) -> (
    Option<Seq<char>>,
    Option<u64>,
) {
    match (at, m) {
        (Some(t), Some(x)) => (Some(t@), Some(secs_until(x, now))),
        _ => (None, None),
    }
}

pub fn expiry(at: Option<String>, m: Option<Moment>, now: Moment) -> (r: (
    Option<String>,
    Option<u64>,
))
    ensures
        (text_of(r.0), r.1) == expiry_of(at, m, now),
{
    match (at, m) {
        (Some(t), Some(x)) => (Some(t), Some(remaining_secs(x, now))),
        _ => (None, None),
    }
}

/// The status of the agent, once its expiry was read.
pub open spec fn is_status(
    s: StatusInfo,
    f: AgentFacts,
    peers: Seq<PeerLite>,
    include_peers: bool,
    sh: Shared,
    expires: Option<Moment>,
    now: Moment,
) -> bool {
    &&& s.ip@ == dotted_quad(f.ip)
    &&& s.hostname == f.hostname
    &&& s.network_name@ == text_or(f.network_name, "default"@)
    &&& s.network_id@ == text_or(f.network_id, "00000000-0000-0000-0000-000000000000"@)
    &&& s.organization_id@ == text_or(f.organization_id, ""@)
    &&& s.endpoint_id == f.endpoint_id
    &&& s.peers_total == peers.len()
    &&& s.peers_online == online_count(peers)
    &&& s.relay_status@ == (if f.tunnels == 0 {
        "disconnected"@
    } else {
        "connected"@
    })
    &&& s.uptime_secs == f.uptime_secs
    &&& s.agent_version == f.agent_version
    &&& s.snapshot_version == f.snapshot_version
    &&& s.peers is Some == include_peers
    &&& include_peers ==> s.peers->Some_0@ == peers
    &&& text_of(s.mode) == Some(
        if f.direct {
            "direct"@
        } else {
            "managed"@
        },
    )
    &&& s.data_plane_up == Some(f.data_plane_up)
    &&& s.keep_alive == Some(sh.keep_alive)
    &&& s.firewall_drops == (match f.firewall {
        Some(w) => Some(plus(w.packets_denied, w.packets_rejected as nat)),
        None => None,
    })
    &&& s.conntrack_entries == (match f.firewall {
        Some(w) => Some(w.conntrack_entries),
        None => None,
    })
    &&& s.on_demand matches Some(o) && o.reconnect_attempts == sh.metrics.reconnect_attempts
        && o.reconnect_success == sh.metrics.reconnect_success && o.reconnect_fail
        == sh.metrics.reconnect_fail && o.packets_buffered == sh.metrics.packets_buffered
        && o.packets_dropped_timeout == sh.metrics.packets_dropped_timeout
    &&& (text_of(s.expires_at), s.expires_in_secs) == expiry_of(f.expires_at, expires, now)
    &&& s.control_url == f.control_url
    &&& s.control == f.control
}

/// The status of the agent, once its expiry was read.
pub fn status_with_expiry(
    f: AgentFacts,
    peers: Vec<PeerLite>,
    include_peers: bool,
    sh: &Shared,
    expires: Option<Moment>,
    now: Moment,
) -> (s: StatusInfo)
    ensures
        is_status(s, f, peers@, include_peers, *sh, expires, now),
{
    let peers_total: usize = peers.len();
    let peers_online: usize = count_online(peers.as_slice());
    let od = sh.on_demand_stats();
    let (firewall_drops, conntrack_entries): (Option<u64>, Option<usize>) = match f.firewall {
        Some(w) => (Some(bump(w.packets_denied, w.packets_rejected)), Some(w.conntrack_entries)),
        None => (None, None),
    };
    let (expires_at, expires_in_secs) = expiry(f.expires_at, expires, now);
    let relay: &str = if f.tunnels == 0 {
        "disconnected"
    } else {
        "connected"
    };
    let mode: &str = if f.direct {
        "direct"
    } else {
        "managed"
    };
    StatusInfo {
        ip: ip_str(f.ip),
        hostname: f.hostname,
        network_name: or_text(f.network_name, "default"),
        network_id: or_text(f.network_id, "00000000-0000-0000-0000-000000000000"),
        organization_id: or_text(f.organization_id, ""),
        endpoint_id: f.endpoint_id,
        peers_total,
        peers_online,
        relay_status: relay.to_owned(),
        uptime_secs: f.uptime_secs,
        agent_version: f.agent_version,
        snapshot_version: f.snapshot_version,
        peers: if include_peers {
            Some(peers)
        } else {
            None
        },
        mode: Some(mode.to_owned()),
        data_plane_up: Some(f.data_plane_up),
        keep_alive: Some(sh.keep_alive_global()),
        firewall_drops,
        conntrack_entries,
        on_demand: Some(
            OnDemandStatusInfo {
                reconnect_attempts: od.reconnect_attempts,
                reconnect_success: od.reconnect_success,
                reconnect_fail: od.reconnect_fail,
                packets_buffered: od.packets_buffered,
                packets_dropped_timeout: od.packets_dropped_timeout,
            },
        ),
        expires_at,
        expires_in_secs,
        control_url: f.control_url,
        control: f.control,
    }
}

/// The moment at which the machine expires, where it can be read.
pub open spec fn expiry_moment(at: Option<String>) -> Option<Moment> {
    match at {
        Some(t) => moment_of(t@),
        None => None,
    }
}

/// The status of the agent at a given moment.
pub fn build_status_at(
    f: AgentFacts,
    peers: Vec<PeerLite>,
    include_peers: bool,
    sh: &Shared,
    now: Moment,
) -> (s: StatusInfo)
    ensures
        is_status(s, f, peers@, include_peers, *sh, expiry_moment(f.expires_at), now),
{
    let expires = match &f.expires_at {
        Some(t) => parse_moment(t.as_str()),
        None => None,
    };
    status_with_expiry(f, peers, include_peers, sh, expires, now)
}

/// The status of the agent now.
pub fn build_status(f: AgentFacts, peers: Vec<PeerLite>, include_peers: bool, sh: &Shared) -> (s:
    StatusInfo)
    ensures
        exists|now: Moment| #[trigger]
            is_status(s, f, peers@, include_peers, *sh, expiry_moment(f.expires_at), now),
{
    let now: Moment = utc_now();
    build_status_at(f, peers, include_peers, sh, now)
}

/// The state of the mesh's DNS.
pub fn build_dns_status(
    routes: &RoutingTable,
    upstream: &[String],
    active: bool,
    synthetic_base: &str,
    magic: &str,
) -> (d: DnsStatusInfo)
    requires
        routes.wf(),
    ensures
        d.suffix@ == routes.tables@.dns_suffix,
        texts(d.upstream@) == texts(upstream@),
        d.peer_dns_active == active,
        d.cached_entries == at_most(
            routes.tables@.by_hostname.dom().len() + routes.tables@.hostname_exact.dom().len()
                + routes.tables@.hostname_wildcards.len()
                + routes.tables@.synthetic_hosts.dom().len() + routes.synths().dom().len(),
        ),
        d.synthetic_base@ == synthetic_base@,
        d.magic_ip@ == magic@,
        d.bind@ == magic@ + ":53"@,
{
    let mut bind: String = magic.to_owned();
    bind.append(":53");
    DnsStatusInfo {
        suffix: routes.dns_suffix(),
        upstream: copy_texts(upstream),
        peer_dns_active: active,
        cached_entries: routes.cached_entry_count(),
        synthetic_base: synthetic_base.to_owned(),
        magic_ip: magic.to_owned(),
        bind,
    }
}

/// A text followed by a number.
pub fn text_and_number(head: &str, n: u64, tail: &str) -> (s: String)
    ensures
        s@ == head@ + decimal(n as nat) + tail@,
{
    let mut s: String = head.to_owned();
    push_decimal(&mut s, n);
    s.append(tail);
    s
}

/// What is known of the paths to the peers. There is no telemetry of paths yet, and the
/// unknowns are reported as such.
pub fn build_diag(peers: usize, endpoint_id: &str) -> (d: DiagInfo)
    ensures
        d.nat_type@ == "unknown"@,
        d.endpoint_id@ == endpoint_id@,
        d.endpoint_online,
        d.relay_reachable,
        d.relay_rtt_bits is None,
        d.direct_peers == 0,
        d.relayed_peers == 0,
        d.total_peers == peers,
        d.notes@.len() == 2,
        d.notes@[0]@ == "NAT classification and path telemetry land with richer peer metrics"@,
        d.notes@[1]@ == "mesh peers known: "@ + decimal(peers as nat) + ""@,
{
    let mut notes: Vec<String> = Vec::new();
    notes.push("NAT classification and path telemetry land with richer peer metrics".to_owned());
    notes.push(text_and_number("mesh peers known: ", peers as u64, ""));
    DiagInfo {
        nat_type: "unknown".to_owned(),
        endpoint_id: endpoint_id.to_owned(),
        endpoint_online: true,
        relay_reachable: true,
        relay_rtt_bits: None,
        direct_peers: 0,
        relayed_peers: 0,
        total_peers: peers,
        notes,
    }
}

/// A check by its name, its result and its detail.
pub open spec fn is_check(c: NetcheckItem, name: Seq<char>, pass: bool, detail: Seq<char>) -> bool {
    c.name@ == name && c.pass == pass && c.detail@ == detail
}

/// The checks of the agent's network: it runs, it has an address, PeerDNS is active, and
/// it has a snapshot.
pub fn build_netcheck(
    uptime_secs: u64,
    ip: u32,
    dns_active: bool,
    dns_suffix: &str,
    snapshot_version: u64,
) -> (n: NetcheckInfo)
    ensures
        n.checks@.len() == 4,
        is_check(
            n.checks@[0],
            "agent_running"@,
            true,
            "uptime "@ + decimal(uptime_secs as nat) + "s"@,
        ),
        is_check(n.checks@[1], "has_mesh_ip"@, ip != 0, dotted_quad(ip)),
        is_check(
            n.checks@[2],
            "peer_dns"@,
            dns_active,
            (if dns_active {
                "suffix ."@ + dns_suffix@
            } else {
                "PeerDNS not active"@
            }),
        ),
        is_check(
            n.checks@[3],
            "snapshot"@,
            snapshot_version > 0,
            "version "@ + decimal(snapshot_version as nat) + ""@,
        ),
        n.ok == (ip != 0 && dns_active && snapshot_version > 0),
{
    let mut checks: Vec<NetcheckItem> = Vec::new();
    checks.push(
        NetcheckItem {
            name: "agent_running".to_owned(),
            pass: true,
            detail: text_and_number("uptime ", uptime_secs, "s"),
        },
    );
    checks.push(
        NetcheckItem { name: "has_mesh_ip".to_owned(), pass: ip != 0, detail: ip_str(ip) },
    );
    let detail = if dns_active {
        let mut s: String = "suffix .".to_owned();
        s.append(dns_suffix);
        s
    } else {
        "PeerDNS not active".to_owned()
    };
    checks.push(NetcheckItem { name: "peer_dns".to_owned(), pass: dns_active, detail });
    checks.push(
        NetcheckItem {
            name: "snapshot".to_owned(),
            pass: snapshot_version > 0,
            detail: text_and_number("version ", snapshot_version, ""),
        },
    );
    NetcheckInfo { ok: ip != 0 && dns_active && snapshot_version > 0, checks }
}

} // verus!
