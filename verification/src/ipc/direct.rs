//! Direct-mode requests: joining, firewall rules, keep-alive and overrides.

use crate::ip::{dotted_quad, ip_str};
use crate::ipc::protocol::{DirectFirewallRuleInfo, DirectPendingInfo, IpcResponse};
use crate::policy::firewall::{FirewallAction, FirewallDirection};
use crate::policy::rules::{holds_text, texts, Protocol};
use crate::pool::conn_pool::{slot_set, slot_view, ConnPool};
use crate::pool::model::SlotView;
use crate::pool::records::{tallies_of, PeerTally};
use crate::pool::shared::Shared;
use crate::routing::lookup::peer_named;
use crate::routing::table::RoutingTable;
use crate::text::{decimal, lowered, push_decimal, same_text, to_lower};
use vstd::prelude::*;
use vstd::string::*;

verus! {

/// A peer that asks to join.
#[derive(Debug)]
pub struct PendingPeer {
    pub endpoint_id: String,
    pub hostname: String,
    pub ip: u32,
    pub collision_index: u8,
}

/// The peer is known by this endpoint id or hostname.
pub open spec fn goes_by(p: PendingPeer, id: Seq<char>) -> bool {
    p.endpoint_id@ == id || p.hostname@ == id
}

fn is_known_by(p: &PendingPeer, id: &str) -> (b: bool)
    ensures
        b == goes_by(*p, id@),
{
    same_text(p.endpoint_id.as_str(), id) || same_text(p.hostname.as_str(), id)
}

/// The place of the first peer that goes by a name.
pub open spec fn first_by(s: Seq<PendingPeer>, id: Seq<char>, i: int) -> bool {
    0 <= i < s.len() && goes_by(s[i], id) && forall|j: int|
        0 <= j < i ==> !goes_by(#[trigger] s[j], id)
}

/// Approves the first pending peer that goes by the name: it leaves the list and joins
/// the approved ones, once. Hands it out; nobody, where none goes by the name.
pub fn accept_pending(list: &mut Vec<PendingPeer>, approved: &mut Vec<String>, peer_id: &str) -> (r: Option<
    PendingPeer,
>)
    ensures
        r is None ==> final(list)@ == old(list)@ && final(approved)@ == old(approved)@ && forall|
            i: int,
        |
            0 <= i < old(list)@.len() ==> !goes_by(#[trigger] old(list)@[i], peer_id@),
        r matches Some(p) ==> exists|i: int|
            first_by(old(list)@, peer_id@, i) && p == old(list)@[i] && final(list)@
                == #[trigger] old(list)@.remove(i),
        r matches Some(p) ==> texts(final(approved)@) == (if texts(old(approved)@).contains(
            p.endpoint_id@,
        ) {
            texts(old(approved)@)
        } else {
            texts(old(approved)@).push(p.endpoint_id@)
        }),
{
    let ghost was = list@;
    let mut i: usize = 0;
    while i < list.len() && !is_known_by(&list[i], peer_id)
        invariant
            list@ == was,
            i <= was.len(),
            forall|j: int| 0 <= j < i ==> !goes_by(#[trigger] was[j], peer_id@),
        decreases list.len() - i,
    {
        i += 1;
    }
    if i >= list.len() {
        return None;
    }
    let p = list.remove(i);
    proof {
        assert(first_by(was, peer_id@, i as int));
        assert(list@ == was.remove(i as int));
    }
    if !holds_text(approved.as_slice(), p.endpoint_id.as_str()) {
        let ghost before = texts(approved@);
        approved.push(p.endpoint_id.clone());
        assert(texts(approved@) =~= before.push(p.endpoint_id@));
    }
    Some(p)
}

/// Removes every pending peer that goes by the name. Tells whether there was one.
pub fn deny_pending(list: &mut Vec<PendingPeer>, peer_id: &str) -> (b: bool)
    ensures
        final(list)@ == old(list)@.filter(|p: PendingPeer| !goes_by(p, peer_id@)),
        b == (final(list)@.len() < old(list)@.len()),
{
    let ghost s = list@;
    let ghost f = |p: PendingPeer| !goes_by(p, peer_id@);
    let ghost mut k: int = 0;
    let before: usize = list.len();
    let mut i: usize = 0;
    proof {
        reveal(Seq::filter);
        assert(list@ =~= s.take(0).filter(f) + s.skip(0));
    }
    while i < list.len()
        invariant
            0 <= k <= s.len(),
            f == (|p: PendingPeer| !goes_by(p, peer_id@)),
            i == s.take(k).filter(f).len(),
            list@ == s.take(k).filter(f) + s.skip(k),
        decreases s.len() - k,
    {
        proof {
            reveal(Seq::filter);
            assert(s.take(k + 1).drop_last() =~= s.take(k));
            assert(list@[i as int] == s[k]);
        }
        let ghost cur = list@;
        if is_known_by(&list[i], peer_id) {
            list.remove(i);
            assert(list@ =~= s.take(k + 1).filter(f) + s.skip(k + 1));
        } else {
            i += 1;
            assert(cur =~= s.take(k + 1).filter(f) + s.skip(k + 1));
        }
        proof {
            k = k + 1;
        }
    }
    proof {
        assert(k == s.len()) by {
            if k < s.len() {
                assert(list@.len() > s.take(k).filter(f).len());
            }
        }
        assert(s.take(k) =~= s);
        assert(list@ =~= s.filter(f));
        s.lemma_filter_len(f);
    }
    list.len() != before
}

pub fn approved_message(id: &str) -> (s: String)
    ensures
        s@ == "Approved "@ + id@ + ". Peer should re-run join while this agent is running."@,
{
    let mut s: String = "Approved ".to_owned();
    s.append(id);
    s.append(". Peer should re-run join while this agent is running.");
    s
}

/// The direction of a firewall rule.
pub open spec fn direction_of(s: Seq<char>) -> Option<FirewallDirection> {
    if s == "in"@ || s == "inbound"@ {
        Some(FirewallDirection::In)
    } else if s == "out"@ || s == "outbound"@ {
        Some(FirewallDirection::Out)
    } else {
        None
    }
}

pub open spec fn action_of(s: Seq<char>) -> Option<FirewallAction> {
    if s == "allow"@ {
        Some(FirewallAction::Allow)
    } else if s == "deny"@ {
        Some(FirewallAction::Deny)
    } else if s == "reject"@ {
        Some(FirewallAction::Reject)
    } else {
        None
    }
}

/// The protocol of a firewall rule, in any case.
pub open spec fn protocol_of(s: Seq<char>) -> Option<Protocol> {
    let l = lowered(s);
    if l == "tcp"@ {
        Some(Protocol::Tcp)
    } else if l == "udp"@ {
        Some(Protocol::Udp)
    } else if l == "icmp"@ {
        Some(Protocol::Icmp)
    } else if l == "any"@ {
        Some(Protocol::Any)
    } else {
        None
    }
}

fn read_direction(s: &str) -> (r: Option<FirewallDirection>)
    ensures
        r == direction_of(s@),
{
    if same_text(s, "in") || same_text(s, "inbound") {
        Some(FirewallDirection::In)
    } else if same_text(s, "out") || same_text(s, "outbound") {
        Some(FirewallDirection::Out)
    } else {
        None
    }
}

fn read_action(s: &str) -> (r: Option<FirewallAction>)
    ensures
        r == action_of(s@),
{
    if same_text(s, "allow") {
        Some(FirewallAction::Allow)
    } else if same_text(s, "deny") {
        Some(FirewallAction::Deny)
    } else if same_text(s, "reject") {
        Some(FirewallAction::Reject)
    } else {
        None
    }
}

fn read_protocol(s: &str) -> (r: Option<Protocol>)
    ensures
        r == protocol_of(s@),
{
    let l = to_lower(s);
    if same_text(l.as_str(), "tcp") {
        Some(Protocol::Tcp)
    } else if same_text(l.as_str(), "udp") {
        Some(Protocol::Udp)
    } else if same_text(l.as_str(), "icmp") {
        Some(Protocol::Icmp)
    } else if same_text(l.as_str(), "any") {
        Some(Protocol::Any)
    } else {
        None
    }
}

/// What is wrong with a firewall rule: the first part that cannot be read.
pub open spec fn rule_fault(direction: Seq<char>, action: Seq<char>, protocol: Seq<char>) -> Seq<
    char,
> {
    if direction_of(direction) is None {
        "direction must be 'in' or 'out'"@
    } else if action_of(action) is None {
        "action must be 'allow', 'deny', or 'reject'"@
    } else {
        "protocol must be tcp|udp|icmp|any"@
    }
}

/// Reads the parts of a firewall rule, or says what is wrong with it.
pub fn read_rule(direction: &str, action: &str, protocol: &str) -> (r: Result<
    (FirewallDirection, FirewallAction, Protocol),
    &'static str,
>)
    ensures
        r is Ok == (direction_of(direction@) is Some && action_of(action@) is Some && protocol_of(
            protocol@,
        ) is Some),
        r matches Ok(p) ==> direction_of(direction@) == Some(p.0) && action_of(action@) == Some(p.1)
            && protocol_of(protocol@) == Some(p.2),
        r matches Err(m) ==> m@ == rule_fault(direction@, action@, protocol@),
{
    let d = match read_direction(direction) {
        Some(d) => d,
        None => {
            return Err("direction must be 'in' or 'out'");
        },
    };
    let a = match read_action(action) {
        Some(a) => a,
        None => {
            return Err("action must be 'allow', 'deny', or 'reject'");
        },
    };
    match read_protocol(protocol) {
        Some(p) => Ok((d, a, p)),
        None => Err("protocol must be tcp|udp|icmp|any"),
    }
}

/// Keeps a host alive, or lets it go idle: its name, and its connection where it is a
/// known peer. Hands out the message.
pub fn keep_alive(
    routes: &RoutingTable,
    pool: &mut ConnPool,
    sh: &mut Shared,
    hostname: &str,
    enable: bool,
    now: u64,
) -> (s: String)
    requires
        routes.wf(),
        old(pool).wf(),
        old(sh).wf(),
    ensures
        final(pool).wf(),
        final(sh).wf(),
        s@ == (if enable {
            "Keep-alive enabled for "@
        } else {
            "Keep-alive disabled for "@
        }) + hostname@,
        final(sh).keep_alive_hosts@ == (if enable {
            old(sh).keep_alive_hosts@.insert(lowered(hostname@), true)
        } else {
            old(sh).keep_alive_hosts@.remove(lowered(hostname@))
        }),
        (Shared {
            keep_alive_hosts: old(sh).keep_alive_hosts,
            tallies: old(sh).tallies,
            ..*final(sh)
        }) == *old(sh),
        final(pool).alpn@ == old(pool).alpn@,
        final(pool).local == old(pool).local,
        match peer_named(routes.tables@, lowered(hostname@)) {
            None => final(pool).recs() == old(pool).recs() && tallies_of(final(sh).tallies)
                == tallies_of(old(sh).tallies),
            Some(p) => tallies_of(final(sh).tallies) == tallies_of(old(sh).tallies).insert(
                p.endpoint,
                (PeerTally { keep_alive: enable, ..old(sh).of(p.endpoint) }),
            ) && slot_set(
                old(pool).recs(),
                final(pool).recs(),
                p.endpoint,
                (SlotView {
                    peer_keep_alive: enable,
                    ..slot_view(old(pool).recs(), p.endpoint, now)
                }),
            ),
        },
{
    if enable {
        sh.add_keep_alive_host(hostname);
    } else {
        sh.remove_keep_alive_host(hostname);
    }
    if let Some(p) = routes.lookup_hostname(hostname) {
        pool.set_peer_keep_alive(sh, p.endpoint, enable, now);
    }
    let mut s: String = if enable {
        "Keep-alive enabled for ".to_owned()
    } else {
        "Keep-alive disabled for ".to_owned()
    };
    s.append(hostname);
    s
}

/// What a running firewall counts.
#[derive(Debug, Clone, Copy)]
pub struct FirewallStats {
    pub enabled: bool,
    pub conntrack_entries: usize,
    pub packets_allowed: u64,
    pub packets_denied: u64,
    pub packets_rejected: u64,
    pub suggested_rules: usize,
}

/// What a firewall counts that does not run.
pub open spec fn idle_stats(enabled: bool) -> FirewallStats {
    FirewallStats {
        enabled,
        conntrack_entries: 0,
        packets_allowed: 0,
        packets_denied: 0,
        packets_rejected: 0,
        suggested_rules: 0,
    }
}

/// The firewall of a network as it is shown: the rules that are saved, with the counters
/// of the running engine.
pub fn show_firewall(
    enabled: bool,
    rules: Vec<DirectFirewallRuleInfo>,
    stats: Option<FirewallStats>,
) -> (r: IpcResponse)
    ensures
        ({
            let s = if stats is Some {
                stats->0
            } else {
                idle_stats(enabled)
            };
            r == (IpcResponse::DirectFirewall {
                enabled: s.enabled,
                rules,
                conntrack_entries: s.conntrack_entries,
                packets_allowed: s.packets_allowed,
                packets_denied: s.packets_denied,
                packets_rejected: s.packets_rejected,
                suggested_rules: s.suggested_rules,
            })
        }),
{
    match stats {
        Some(s) => IpcResponse::DirectFirewall {
            enabled: s.enabled,
            rules,
            conntrack_entries: s.conntrack_entries,
            packets_allowed: s.packets_allowed,
            packets_denied: s.packets_denied,
            packets_rejected: s.packets_rejected,
            suggested_rules: s.suggested_rules,
        },
        None => IpcResponse::DirectFirewall {
            enabled,
            rules,
            conntrack_entries: 0,
            packets_allowed: 0,
            packets_denied: 0,
            packets_rejected: 0,
            suggested_rules: 0,
        },
    }
}

/// Only the coordinator of a network may act for it.
pub fn require_coordinator(coordinator: bool) -> (r: Result<(), &'static str>)
    ensures
        r is Ok == coordinator,
        r matches Err(e) ==> e@ == "only the coordinator can perform this action"@,
{
    if coordinator {
        Ok(())
    } else {
        Err("only the coordinator can perform this action")
    }
}

/// What a Direct-mode request has done.
#[derive(Debug)]
pub enum Done {
    Denied { peer_id: String },
    Kicked { peer_id: String },
    /// The documents are not ready yet.
    KickQueued { peer_id: String },
    FirewallOff,
    RuleAdded,
    RuleRemoved { index: usize },
    FirewallReset,
    ConntrackFlushed,
    SuggestionAccepted,
    SuggestionRejected,
    PolicyPublished,
    PolicyCleared,
}

/// The message on what was done.
pub open spec fn done_text(d: Done) -> Seq<char> {
    match d {
        Done::Denied { peer_id } => "Denied "@ + peer_id@,
        Done::Kicked { peer_id } => "Kicked "@ + peer_id@,
        Done::KickQueued { peer_id } => "Queued kick for "@ + peer_id@
            + " (docs not ready; will apply shortly)"@,
        Done::FirewallOff => "Firewall disabled (allow all)."@,
        Done::RuleAdded => "Rule added."@,
        Done::RuleRemoved { index } => "Removed rule "@ + decimal(index as nat),
        Done::FirewallReset => "Firewall reset to defaults."@,
        Done::ConntrackFlushed => "Conntrack table flushed."@,
        Done::SuggestionAccepted => "Accepted pending firewall suggestion."@,
        Done::SuggestionRejected => "Rejected pending firewall suggestion."@,
        Done::PolicyPublished => "Published firewall policy to network."@,
        Done::PolicyCleared => "Cleared published firewall policy."@,
    }
}

pub fn done_message(d: &Done) -> (s: String)
    ensures
        s@ == done_text(*d),
{
    match d {
        Done::Denied { peer_id } => {
            let mut s: String = "Denied ".to_owned();
            s.append(peer_id.as_str());
            s
        },
        Done::Kicked { peer_id } => {
            let mut s: String = "Kicked ".to_owned();
            s.append(peer_id.as_str());
            s
        },
        Done::KickQueued { peer_id } => {
            let mut s: String = "Queued kick for ".to_owned();
            s.append(peer_id.as_str());
            s.append(" (docs not ready; will apply shortly)");
            s
        },
        Done::FirewallOff => "Firewall disabled (allow all).".to_owned(),
        Done::RuleAdded => "Rule added.".to_owned(),
        Done::RuleRemoved { index } => {
            let mut s: String = "Removed rule ".to_owned();
            push_decimal(&mut s, *index as u64);
            s
        },
        Done::FirewallReset => "Firewall reset to defaults.".to_owned(),
        Done::ConntrackFlushed => "Conntrack table flushed.".to_owned(),
        Done::SuggestionAccepted => "Accepted pending firewall suggestion.".to_owned(),
        Done::SuggestionRejected => "Rejected pending firewall suggestion.".to_owned(),
        Done::PolicyPublished => "Published firewall policy to network.".to_owned(),
        Done::PolicyCleared => "Cleared published firewall policy.".to_owned(),
    }
}

/// A pending peer as it is listed.
pub open spec fn is_listing(i: DirectPendingInfo, p: PendingPeer) -> bool {
    i.endpoint_id == p.endpoint_id && i.hostname == p.hostname && i.ipv4@ == dotted_quad(p.ip)
        && i.collision_index == p.collision_index
}

/// The pending peers as they are listed, in order.
pub fn list_pending(list: &[PendingPeer]) -> (v: Vec<DirectPendingInfo>)
    ensures
        v@.len() == list@.len(),
        forall|i: int| 0 <= i < v@.len() ==> is_listing(#[trigger] v@[i], list@[i]),
{
    let mut out: Vec<DirectPendingInfo> = Vec::new();
    let mut i: usize = 0;
    while i < list.len()
        invariant
            i <= list@.len(),
            out@.len() == i,
            forall|j: int| 0 <= j < i ==> is_listing(#[trigger] out@[j], list@[j]),
        decreases list.len() - i,
    {
        let p = &list[i];
        out.push(
            DirectPendingInfo {
                endpoint_id: p.endpoint_id.clone(),
                hostname: p.hostname.clone(),
                ipv4: ip_str(p.ip),
                collision_index: p.collision_index,
            },
        );
        i += 1;
    }
    out
}

/// The key under which an override is saved.
pub fn override_key(network_id: &str, peer: &str) -> (s: String)
    ensures
        s@ == network_id@ + ":"@ + lowered(peer@),
{
    let mut s: String = network_id.to_owned();
    s.append(":");
    let l = to_lower(peer);
    s.append(l.as_str());
    s
}

pub fn override_message(peer: &str, network: &str, ip: u32) -> (s: String)
    ensures
        s@ == "Override: peer '"@ + peer@ + "' on network '"@ + network@ + "' → "@ + dotted_quad(
            ip,
        ),
{
    let mut s: String = "Override: peer '".to_owned();
    s.append(peer);
    s.append("' on network '");
    s.append(network);
    s.append("' → ");
    let t = ip_str(ip);
    s.append(t.as_str());
    s
}

} // verus!
