//! Policy rules, and what it means for one to apply to a packet.

use crate::text::{lowered, same_text};
use vstd::prelude::*;

verus! {

/// Transport protocol of a packet, or of a rule.
#[derive(Debug, Clone, Copy, PartialEq, Eq, Structural)]
pub enum Protocol {
    Tcp,
    Udp,
    Icmp,
    Icmpv6,
    Other(u8),
    Any,
}

#[derive(Debug, Clone, Copy, PartialEq, Eq, Structural)]
pub enum Action {
    Allow,
    Deny,
}

#[derive(Debug, Clone, Copy, PartialEq, Eq, Structural)]
pub enum Direction {
    Inbound,
    Outbound,
}

/// What the bundle says of ICMP as a whole.
#[derive(Debug, Clone, Copy, PartialEq, Eq, Structural)]
pub enum IcmpPolicy {
    Allow,
    Deny,
    Acl,
}

#[derive(Debug, Clone, Copy, PartialEq, Eq, Structural)]
pub enum RuleScope {
    Organization,
    Network,
}

/// An address block.
#[derive(Debug, Clone, Copy, PartialEq, Eq, Structural)]
pub enum Cidr {
    V4 { addr: u32, prefix: u8 },
    V6 { network: u128, bits: u8 },
}

/// Whom a rule speaks of.
#[derive(Debug)]
pub enum Selector {
    Any,
    Endpoint(String),
    Tag(String),
    Network(String),
    Cidr(Cidr),
    User(String),
}

#[derive(Debug, Clone, Copy, PartialEq, Eq, Structural)]
pub struct PortRange {
    pub start: u16,
    pub end: u16,
}

#[derive(Debug)]
pub struct PolicyRule {
    pub src: Selector,
    pub dst: Selector,
    pub action: Action,
    pub ports: Vec<PortRange>,
    pub protocol: Option<Protocol>,
    pub priority: i32,
    pub order_index: i32,
    pub scope: RuleScope,
    pub enabled: bool,
    pub slug: Option<String>,
    pub src_posture: Vec<String>,
}

#[derive(Debug)]
pub struct PolicyBundle {
    pub rules: Vec<PolicyRule>,
    pub default_action: Action,
    pub icmp_policy: IcmpPolicy,
}

impl PolicyBundle {
    /// No rules, and everything allowed.
    pub fn open() -> (b: Self)
        ensures
            b.rules@.len() == 0,
            b.default_action == Action::Allow,
            b.icmp_policy == IcmpPolicy::Acl,
    {
        PolicyBundle {
            rules: Vec::new(),
            default_action: Action::Allow,
            icmp_policy: IcmpPolicy::Acl,
        }
    }
}

/// This node, as policy sees it.
#[derive(Debug)]
pub struct SelfIdentity {
    pub endpoint_hex: String,
    pub ip: u32,
    pub tags: Vec<String>,
    pub network: String,
}

/// One end of a flow, as selectors see it.
pub struct PartyView {
    pub endpoint: Seq<char>,
    pub tags: Seq<Seq<char>>,
    pub network: Seq<char>,
    pub ip: Option<u32>,
}

/// The texts of a list of strings.
pub open spec fn texts(v: Seq<String>) -> Seq<Seq<char>> {
    Seq::new(v.len(), |i: int| v[i]@)
}

impl Protocol {
    pub open spec fn icmp(self) -> bool {
        self is Icmp || self is Icmpv6
    }

    /// A rule for `rule` speaks of packets of this protocol.
    pub open spec fn suits(self, rule: Option<Protocol>) -> bool {
        match rule {
            None => true,
            Some(p) => p is Any || p == self,
        }
    }

    pub fn is_icmp(self) -> (b: bool)
        ensures
            b == self.icmp(),
    {
        matches!(self, Protocol::Icmp | Protocol::Icmpv6)
    }

    pub fn matches_rule(self, rule: Option<Protocol>) -> (b: bool)
        ensures
            b == self.suits(rule),
    {
        match rule {
            None => true,
            Some(p) => p == Protocol::Any || p == self,
        }
    }
}

/// The address lies in the block.
pub open spec fn in_block(block: Cidr, ip: u32) -> bool {
    match block {
        Cidr::V4 { addr, prefix } => prefix == 0 || (prefix <= 32 && ip >> (32 - prefix) as u32
            == addr >> (32 - prefix) as u32),
        Cidr::V6 { .. } => false,
    }
}

pub fn block_holds(block: &Cidr, ip: u32) -> (b: bool)
    ensures
        b == in_block(*block, ip),
{
    match *block {
        Cidr::V4 { addr, prefix } => {
            if prefix == 0 {
                return true;
            }
            if prefix > 32 {
                return false;
            }
            let shift: u32 = 32 - prefix as u32;
            ip >> shift == addr >> shift
        },
        Cidr::V6 { .. } => false,
    }
}

/// The tag that marks a user.
pub open spec fn user_tag(id: Seq<char>) -> Seq<char> {
    "user:"@ + id
}

/// The selector speaks of the party.
pub open spec fn selects(s: Selector, p: PartyView) -> bool {
    match s {
        Selector::Any => true,
        Selector::Endpoint(id) => lowered(id@) == lowered(p.endpoint),
        Selector::Tag(t) => p.tags.contains(t@),
        Selector::Network(n) => n@ == p.network,
        Selector::Cidr(block) => p.ip matches Some(ip) && in_block(block, ip),
        Selector::User(id) => exists|i: int|
            0 <= i < p.tags.len() && (#[trigger] p.tags[i] == user_tag(id@) || lowered(p.tags[i])
                == lowered(id@)),
    }
}

/// Some range holds the port.
pub open spec fn covered(ports: Seq<PortRange>, port: u16) -> bool {
    exists|i: int| 0 <= i < ports.len() && (#[trigger] ports[i]).start <= port <= ports[i].end
}

/// A rule with these ports speaks of packets of this protocol to this port.
pub open spec fn port_suits(ports: Seq<PortRange>, protocol: Protocol, port: Option<u16>) -> bool {
    if protocol.icmp() {
        true
    } else if protocol is Other {
        ports.len() == 0
    } else {
        ports.len() == 0 || (port matches Some(p) && covered(ports, p))
    }
}

/// What a rule is held against.
pub struct Subject {
    pub protocol: Protocol,
    pub local: PartyView,
    pub peer: PartyView,
    pub dst_port: Option<u16>,
    pub direction: Direction,
    pub posture_ok: bool,
}

/// The end that a packet comes from.
pub open spec fn source(s: Subject) -> PartyView {
    match s.direction {
        Direction::Inbound => s.peer,
        Direction::Outbound => s.local,
    }
}

/// The end that a packet goes to.
pub open spec fn target(s: Subject) -> PartyView {
    match s.direction {
        Direction::Inbound => s.local,
        Direction::Outbound => s.peer,
    }
}

/// The rule applies to the packet. A rule with posture checks applies only while
/// the posture is in order.
pub open spec fn applies(r: PolicyRule, s: Subject) -> bool {
    &&& r.enabled
    &&& s.protocol.suits(r.protocol)
    &&& port_suits(r.ports@, s.protocol, s.dst_port)
    &&& selects(r.src, source(s))
    &&& selects(r.dst, target(s))
    &&& r.src_posture@.len() > 0 ==> s.posture_ok
}

/// A deny rule: of the organization or of the network.
pub open spec fn denies(r: PolicyRule) -> bool {
    r.action == Action::Deny
}

/// An allow rule: only those of the network count.
pub open spec fn allows(r: PolicyRule) -> bool {
    r.action == Action::Allow && r.scope == RuleScope::Network
}

/// What the bundle decides: its word on ICMP first; else any deny rule that applies
/// denies, whatever allows; else any allow rule that applies allows; else the default.
pub open spec fn decision(b: PolicyBundle, s: Subject) -> Action {
    if s.protocol == Protocol::Icmp && b.icmp_policy == IcmpPolicy::Allow {
        Action::Allow
    } else if s.protocol == Protocol::Icmp && b.icmp_policy == IcmpPolicy::Deny {
        Action::Deny
    } else if exists|i: int|
        0 <= i < b.rules@.len() && denies(#[trigger] b.rules@[i]) && applies(b.rules@[i], s) {
        Action::Deny
    } else if exists|i: int|
        0 <= i < b.rules@.len() && allows(#[trigger] b.rules@[i]) && applies(b.rules@[i], s) {
        Action::Allow
    } else {
        b.default_action
    }
}

/// Whether a list of strings holds a text.
pub fn holds_text(v: &[String], t: &str) -> (b: bool)
    ensures
        b == texts(v@).contains(t@),
{
    let mut i: usize = 0;
    while i < v.len()
        invariant
            i <= v@.len(),
            forall|j: int| 0 <= j < i ==> v@[j]@ != t@,
        decreases v.len() - i,
    {
        if same_text(v[i].as_str(), t) {
            assert(texts(v@)[i as int] == t@);
            return true;
        }
        i += 1;
    }
    assert(!texts(v@).contains(t@)) by {
        if texts(v@).contains(t@) {
            let j = choose|j: int| 0 <= j < texts(v@).len() && texts(v@)[j] == t@;
            assert(v@[j]@ == t@);
        }
    }
    false
}

} // verus!
