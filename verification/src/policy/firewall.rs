//! The local firewall of one network: ordered rules, the first that fits decides.

use super::meta::ResolvedL4;
use super::ports::{any_holds, held, merge_ports, separate};
use super::rules::{covered, Direction, PortRange, Protocol};
use crate::text::{lowered, same_ignoring_case};
use vstd::prelude::*;
use vstd::string::*;

verus! {

#[derive(Debug, Clone, Copy, PartialEq, Eq, Structural)]
pub enum PolicyVerdict {
    Allow,
    Deny,
    Reject,
}

#[derive(Debug, Clone, Copy, PartialEq, Eq, Structural)]
pub enum FirewallDirection {
    In,
    Out,
}

#[derive(Debug, Clone, Copy, PartialEq, Eq, Structural)]
pub enum FirewallAction {
    Allow,
    Deny,
    Reject,
}

/// Which peers a firewall rule speaks of.
#[derive(Debug)]
pub enum PeerFilter {
    Any,
    Endpoint(String),
    Hostname(String),
    NetworkId(String),
}

#[derive(Debug)]
pub struct FirewallRule {
    pub direction: FirewallDirection,
    pub action: FirewallAction,
    pub protocol: Protocol,
    pub ports: Vec<PortRange>,
    pub peer: PeerFilter,
}

/// Compiled local-firewall rule (direction + action + proto + ports + peer).
#[derive(Debug)]
pub struct CompiledFwRule {
    pub inbound: bool,
    pub allow: bool,
    pub reject: bool,
    pub protocol: Protocol,
    pub ports: Vec<(u16, u16)>,
    pub peer_endpoint: Option<String>,
    pub peer_hostname: Option<String>,
    pub peer_network: Option<u128>,
}

/// What firewall rules read of a packet.
pub struct FwPacket<'a> {
    pub direction: Direction,
    pub l4: ResolvedL4,
    pub peer_hex: &'a str,
    pub peer_hostname: Option<&'a str>,
    pub peer_network: Option<u128>,
}

/// A [`FwPacket`] as rules see it.
pub struct FwSubject {
    pub direction: Direction,
    pub l4: ResolvedL4,
    pub peer_hex: Seq<char>,
    pub peer_hostname: Option<Seq<char>>,
    pub peer_network: Option<u128>,
}

impl<'a> FwPacket<'a> {
    pub open spec fn seen(&self) -> FwSubject {
        FwSubject {
            direction: self.direction,
            l4: self.l4,
            peer_hex: self.peer_hex@,
            peer_hostname: match self.peer_hostname {
                Some(h) => Some(h@),
                None => None,
            },
            peer_network: self.peer_network,
        }
    }
}

/// The network id that a text denotes.
pub uninterp spec fn network_id_of(text: Seq<char>) -> Option<u128>;

/// `uuid::Uuid`'s `FromStr` reads an id in any of the textual forms of a UUID, and
/// `as_u128` gives its number; a text in none of them has no id.
#[verifier::external_body]
pub(crate) fn parse_network_id(text: &str) -> (r: Option<u128>)
    ensures
        r == network_id_of(text@),
{
    text.parse::<uuid::Uuid>().ok().map(|u| u.as_u128())
}

/// The rule's ports are fit for the packet. Rules that name ports apply to ICMP all
/// the same; other packets need a destination port that the rule covers.
pub open spec fn ports_fit(listed: bool, covers: bool, l4: ResolvedL4) -> bool {
    !listed || l4.protocol.icmp() || (l4.dst_port is Some && covers)
}

/// The filter accepts the peer. A network filter whose text is no id accepts every
/// peer.
pub open spec fn peer_fits(f: PeerFilter, s: FwSubject) -> bool {
    match f {
        PeerFilter::Any => true,
        PeerFilter::Endpoint(e) => lowered(e@) == lowered(s.peer_hex),
        PeerFilter::Hostname(h) => s.peer_hostname matches Some(x) && lowered(x) == lowered(h@),
        PeerFilter::NetworkId(n) => network_id_of(n@) is Some ==> s.peer_network
            == network_id_of(n@),
    }
}

pub open spec fn port_of(l4: ResolvedL4) -> u16 {
    match l4.dst_port {
        Some(p) => p,
        None => 0,
    }
}

/// The rule speaks of the packet.
pub open spec fn speaks_of(r: FirewallRule, s: FwSubject) -> bool {
    &&& (r.direction is In) == (s.direction is Inbound)
    &&& s.l4.protocol.suits(Some(r.protocol))
    &&& ports_fit(r.ports@.len() > 0, covered(r.ports@, port_of(s.l4)), s.l4)
    &&& peer_fits(r.peer, s)
}

pub open spec fn outcome(a: FirewallAction) -> PolicyVerdict {
    match a {
        FirewallAction::Allow => PolicyVerdict::Allow,
        FirewallAction::Deny => PolicyVerdict::Deny,
        FirewallAction::Reject => PolicyVerdict::Reject,
    }
}

/// What the rules say of a packet: the first that speaks of it decides.
pub open spec fn rules_say(rules: Seq<FirewallRule>, s: FwSubject) -> Option<PolicyVerdict>
    decreases rules.len(),
{
    if rules.len() == 0 {
        None
    } else if speaks_of(rules[0], s) {
        Some(outcome(rules[0].action))
    } else {
        rules_say(rules.drop_first(), s)
    }
}

impl CompiledFwRule {
    /// The compiled rule says what the rule says.
    pub open spec fn stands_for(&self, r: FirewallRule) -> bool {
        &&& self.inbound == (r.direction is In)
        &&& self.allow == (r.action is Allow)
        &&& self.reject == (r.action is Reject)
        &&& self.protocol == r.protocol
        &&& (self.ports@.len() == 0) == (r.ports@.len() == 0)
        &&& separate(self.ports@)
        &&& forall|p: u16| #[trigger] held(self.ports@, p) == covered(r.ports@, p)
        &&& match r.peer {
            PeerFilter::Any => self.peer_endpoint is None && self.peer_hostname is None
                && self.peer_network is None,
            PeerFilter::Endpoint(e) => self.peer_endpoint matches Some(x) && x@ == e@
                && self.peer_hostname is None && self.peer_network is None,
            PeerFilter::Hostname(h) => self.peer_hostname matches Some(x) && x@ == h@
                && self.peer_endpoint is None && self.peer_network is None,
            PeerFilter::NetworkId(n) => self.peer_endpoint is None && self.peer_hostname is None
                && self.peer_network == network_id_of(n@),
        }
    }

    pub open spec fn fires(&self, s: FwSubject) -> bool {
        &&& self.inbound == (s.direction is Inbound)
        &&& s.l4.protocol.suits(Some(self.protocol))
        &&& ports_fit(self.ports@.len() > 0, held(self.ports@, port_of(s.l4)), s.l4)
        &&& match self.peer_endpoint {
            Some(e) => lowered(e@) == lowered(s.peer_hex),
            None => true,
        }
        &&& match self.peer_hostname {
            Some(h) => s.peer_hostname matches Some(x) && lowered(x) == lowered(h@),
            None => true,
        }
        &&& match self.peer_network {
            Some(n) => s.peer_network == Some(n),
            None => true,
        }
    }

    pub open spec fn says(&self) -> PolicyVerdict {
        if self.allow {
            PolicyVerdict::Allow
        } else if self.reject {
            PolicyVerdict::Reject
        } else {
            PolicyVerdict::Deny
        }
    }

    fn hits(&self, p: &FwPacket) -> (b: bool)
        ensures
            b == self.fires(p.seen()),
    {
        if self.inbound != matches!(p.direction, Direction::Inbound) {
            return false;
        }
        if !p.l4.protocol.matches_rule(Some(self.protocol)) {
            return false;
        }
        if self.ports.len() > 0 && !p.l4.protocol.is_icmp() {
            match p.l4.dst_port {
                Some(port) => {
                    if !any_holds(self.ports.as_slice(), port) {
                        return false;
                    }
                },
                None => {
                    return false;
                },
            }
        }
        if let Some(e) = &self.peer_endpoint {
            if !same_ignoring_case(e.as_str(), p.peer_hex) {
                return false;
            }
        }
        if let Some(h) = &self.peer_hostname {
            match p.peer_hostname {
                Some(x) => {
                    if !same_ignoring_case(x, h.as_str()) {
                        return false;
                    }
                },
                None => {
                    return false;
                },
            }
        }
        match (self.peer_network, p.peer_network) {
            (None, _) => true,
            (Some(n), Some(m)) => n == m,
            (Some(_), None) => false,
        }
    }
}

/// What compiled rules say of a packet.
pub open spec fn compiled_say(rules: Seq<CompiledFwRule>, s: FwSubject) -> Option<PolicyVerdict>
    decreases rules.len(),
{
    if rules.len() == 0 {
        None
    } else if rules[0].fires(s) {
        Some(rules[0].says())
    } else {
        compiled_say(rules.drop_first(), s)
    }
}

/// What the rules say of a packet; nothing where none speaks of it.
pub fn fw_verdict(rules: &[CompiledFwRule], p: &FwPacket) -> (v: Option<PolicyVerdict>)
    ensures
        v == compiled_say(rules@, p.seen()),
{
    let mut i: usize = 0;
    proof {
        assert(rules@.skip(0) =~= rules@);
    }
    while i < rules.len()
        invariant
            i <= rules@.len(),
            compiled_say(rules@, p.seen()) == compiled_say(rules@.skip(i as int), p.seen()),
        decreases rules.len() - i,
    {
        proof {
            assert(rules@.skip(i as int)[0] == rules@[i as int]);
            assert(rules@.skip(i as int).drop_first() =~= rules@.skip(i + 1));
        }
        let r = &rules[i];
        if r.hits(p) {
            if r.allow {
                return Some(PolicyVerdict::Allow);
            }
            if r.reject {
                return Some(PolicyVerdict::Reject);
            }
            return Some(PolicyVerdict::Deny);
        }
        i += 1;
    }
    None
}

/// Each compiled rule says what the rule in its place says.
pub open spec fn all_stand_for(compiled: Seq<CompiledFwRule>, rules: Seq<FirewallRule>) -> bool {
    &&& compiled.len() == rules.len()
    &&& forall|i: int| 0 <= i < rules.len() ==> (#[trigger] compiled[i]).stands_for(rules[i])
}

fn compile_one(r: &FirewallRule) -> (c: CompiledFwRule)
    ensures
        c.stands_for(*r),
{
    let ports = merge_ports(r.ports.as_slice());
    let mut peer_endpoint: Option<String> = None;
    let mut peer_hostname: Option<String> = None;
    let mut peer_network: Option<u128> = None;
    match &r.peer {
        PeerFilter::Any => {},
        PeerFilter::Endpoint(e) => {
            peer_endpoint = Some(e.as_str().to_owned());
        },
        PeerFilter::Hostname(h) => {
            peer_hostname = Some(h.as_str().to_owned());
        },
        PeerFilter::NetworkId(n) => {
            peer_network = parse_network_id(n.as_str());
        },
    }
    CompiledFwRule {
        inbound: matches!(r.direction, FirewallDirection::In),
        allow: matches!(r.action, FirewallAction::Allow),
        reject: matches!(r.action, FirewallAction::Reject),
        protocol: r.protocol,
        ports,
        peer_endpoint,
        peer_hostname,
        peer_network,
    }
}

/// Compile a firewall rule list once (local + suggested concatenated, local first).
pub fn compile_fw_rules(local: &[FirewallRule], suggested: &[FirewallRule]) -> (out: Vec<
    CompiledFwRule,
>)
    ensures
        all_stand_for(out@, local@ + suggested@),
{
    let mut out: Vec<CompiledFwRule> = Vec::new();
    let mut i: usize = 0;
    while i < local.len()
        invariant
            i <= local@.len(),
            all_stand_for(out@, local@.take(i as int)),
        decreases local.len() - i,
    {
        out.push(compile_one(&local[i]));
        i += 1;
    }
    let mut j: usize = 0;
    while j < suggested.len()
        invariant
            i == local@.len(),
            j <= suggested@.len(),
            all_stand_for(out@, local@ + suggested@.take(j as int)),
        decreases suggested.len() - j,
    {
        out.push(compile_one(&suggested[j]));
        j += 1;
    }
    proof {
        assert(suggested@.take(j as int) =~= suggested@);
    }
    out
}

/// Compiled rules decide as the rules do, local before suggested.
pub proof fn law_compiled_rules_decide_alike(
    compiled: Seq<CompiledFwRule>,
    rules: Seq<FirewallRule>,
    s: FwSubject,
)
    requires
        all_stand_for(compiled, rules),
    ensures
        compiled_say(compiled, s) == rules_say(rules, s),
    decreases rules.len(),
{
    if rules.len() > 0 {
        assert(compiled[0].stands_for(rules[0]));
        assert(held(compiled[0].ports@, port_of(s.l4)) == covered(rules[0].ports@, port_of(s.l4)));
        assert(compiled[0].fires(s) == speaks_of(rules[0], s));
        assert forall|i: int| 0 <= i < rules.drop_first().len() implies (
        #[trigger] compiled.drop_first()[i]).stands_for(rules.drop_first()[i]) by {
            assert(compiled[i + 1].stands_for(rules[i + 1]));
        }
        law_compiled_rules_decide_alike(compiled.drop_first(), rules.drop_first(), s);
    }
}

} // verus!
