//! The access-control list, compiled once per publication.

use super::ports::{any_holds, held, merge_ports};
use super::rules::{
    allows, applies, block_holds, covered, decision, denies, holds_text, selects, source, target,
    texts, user_tag, Action, Cidr, Direction, IcmpPolicy, PartyView, PolicyBundle, PolicyRule,
    Protocol, RuleScope, Selector, Subject,
};
use crate::text::{lower, lowered, same_ignoring_case, same_text, to_lower};
use vstd::prelude::*;
use vstd::string::*;

verus! {

/// Precompiled selector: its case is folded once.
#[derive(Debug)]
pub enum Sel {
    Any,
    Endpoint(String),
    Tag(String),
    Network(String),
    Cidr(Cidr),
    User { id: String, marker: String },
}

/// One end of a flow.
pub struct Party<'a> {
    pub endpoint: &'a str,
    pub tags: &'a [String],
    pub network: &'a str,
    pub ip: Option<u32>,
}

impl<'a> Party<'a> {
    pub open spec fn seen(&self) -> PartyView {
        PartyView {
            endpoint: self.endpoint@,
            tags: texts(self.tags@),
            network: self.network@,
            ip: self.ip,
        }
    }
}

pub proof fn lemma_lower_twice(s: Seq<char>)
    ensures
        lowered(lowered(s)) == lowered(s),
{
    assert(lowered(lowered(s)) =~= lowered(s)) by {
        assert forall|i: int| 0 <= i < s.len() implies lower(lower(s[i])) == lower(s[i]) by {}
    }
}

impl Sel {
    /// The compiled form speaks of the same parties as the selector.
    pub open spec fn stands_for(&self, s: Selector) -> bool {
        match (*self, s) {
            (Sel::Any, Selector::Any) => true,
            (Sel::Endpoint(a), Selector::Endpoint(b)) => a@ == lowered(b@),
            (Sel::Tag(a), Selector::Tag(b)) => a@ == b@,
            (Sel::Network(a), Selector::Network(b)) => a@ == b@,
            (Sel::Cidr(a), Selector::Cidr(b)) => a == b,
            (Sel::User { id, marker }, Selector::User(b)) => id@ == lowered(b@) && marker@
                == user_tag(b@),
            _ => false,
        }
    }

    pub fn compile(s: &Selector) -> (c: Self)
        ensures
            c.stands_for(*s),
    {
        match s {
            Selector::Any => Sel::Any,
            Selector::Endpoint(id) => Sel::Endpoint(to_lower(id.as_str())),
            Selector::Tag(t) => Sel::Tag(t.clone()),
            Selector::Network(n) => Sel::Network(n.clone()),
            Selector::Cidr(c) => Sel::Cidr(*c),
            Selector::User(id) => {
                let mut marker = "user:".to_owned();
                marker.append(id.as_str());
                Sel::User { id: to_lower(id.as_str()), marker }
            },
        }
    }

    /// Whether the selector speaks of the party.
    pub fn matches(&self, p: &Party) -> (b: bool)
        ensures
            forall|s: Selector| self.stands_for(s) ==> b == #[trigger] selects(s, p.seen()),
    {
        match self {
            Sel::Any => true,
            Sel::Endpoint(id) => {
                proof {
                    assert forall|s: Selector| self.stands_for(s) implies (lowered(id@) == lowered(
                        p.endpoint@,
                    )) == #[trigger] selects(s, p.seen()) by {
                        if let Selector::Endpoint(b) = s {
                            lemma_lower_twice(b@);
                        }
                    }
                }
                same_ignoring_case(id.as_str(), p.endpoint)
            },
            Sel::Tag(t) => holds_text(p.tags, t.as_str()),
            Sel::Network(n) => same_text(n.as_str(), p.network),
            Sel::Cidr(c) => match p.ip {
                Some(ip) => block_holds(c, ip),
                None => false,
            },
            Sel::User { id, marker } => {
                let mut i: usize = 0;
                while i < p.tags.len()
                    invariant
                        i <= p.tags@.len(),
                        *self matches Sel::User { id: a, marker: m } && a == *id && m == *marker,
                        forall|j: int|
                            0 <= j < i ==> (#[trigger] p.tags@[j])@ != marker@ && lowered(
                                p.tags@[j]@,
                            ) != lowered(id@),
                    decreases p.tags.len() - i,
                {
                    if same_text(p.tags[i].as_str(), marker.as_str()) || same_ignoring_case(
                        p.tags[i].as_str(),
                        id.as_str(),
                    ) {
                        proof {
                            assert forall|s: Selector| self.stands_for(s) implies #[trigger] selects(
                                s,
                                p.seen(),
                            ) by {
                                if let Selector::User(b) = s {
                                    lemma_lower_twice(b@);
                                    assert(p.seen().tags[i as int] == p.tags@[i as int]@);
                                }
                            }
                        }
                        return true;
                    }
                    i += 1;
                }
                proof {
                    assert forall|s: Selector| self.stands_for(s) implies !(#[trigger] selects(
                        s,
                        p.seen(),
                    )) by {
                        if let Selector::User(b) = s {
                            lemma_lower_twice(b@);
                            assert forall|j: int| 0 <= j < p.seen().tags.len() implies !(
                            #[trigger] p.seen().tags[j] == user_tag(b@) || lowered(
                                p.seen().tags[j],
                            ) == lowered(b@)) by {
                                assert(p.seen().tags[j] == p.tags@[j]@);
                            }
                        }
                    }
                }
                false
            },
        }
    }
}

/// A rule in its compiled form.
#[derive(Debug)]
pub struct CompiledRule {
    pub src: Sel,
    pub dst: Sel,
    pub action: Action,
    pub order_index: i32,
    pub priority: i32,
    pub protocol: Option<Protocol>,
    /// Merged, sorted intervals that do not touch. Empty: any port.
    pub ports: Vec<(u16, u16)>,
    pub has_posture: bool,
}

impl CompiledRule {
    /// The compiled form says what the rule says.
    #[verifier::opaque]
    pub open spec fn stands_for(&self, r: PolicyRule) -> bool {
        &&& self.src.stands_for(r.src)
        &&& self.dst.stands_for(r.dst)
        &&& self.action == r.action
        &&& self.order_index == r.order_index
        &&& self.priority == r.priority
        &&& self.protocol == r.protocol
        &&& self.ports@.len() == 0 <==> r.ports@.len() == 0
        &&& forall|p: u16| held(self.ports@, p) == covered(r.ports@, p)
        &&& self.has_posture == (r.src_posture@.len() > 0)
        &&& r.enabled
    }

    pub fn port_hit(&self, port: Option<u16>) -> (b: bool)
        ensures
            b == (self.ports@.len() == 0 || (port matches Some(p) && held(self.ports@, p))),
    {
        if self.ports.len() == 0 {
            return true;
        }
        match port {
            Some(p) => any_holds(self.ports.as_slice(), p),
            None => false,
        }
    }
}

/// What a compiled rule is held against.
pub struct Packet<'a> {
    pub protocol: Protocol,
    pub local: Party<'a>,
    pub peer: Party<'a>,
    pub dst_port: Option<u16>,
    pub direction: Direction,
    pub posture_ok: bool,
}

impl<'a> Packet<'a> {
    pub open spec fn seen(&self) -> Subject {
        Subject {
            protocol: self.protocol,
            local: self.local.seen(),
            peer: self.peer.seen(),
            dst_port: self.dst_port,
            direction: self.direction,
            posture_ok: self.posture_ok,
        }
    }
}

/// Whether the compiled rule applies to the packet.
pub fn rule_hit(r: &CompiledRule, p: &Packet) -> (b: bool)
    ensures
        forall|s: PolicyRule| r.stands_for(s) ==> b == #[trigger] applies(s, p.seen()),
{
    proof {
        reveal(CompiledRule::stands_for);
    }
    if !p.protocol.matches_rule(r.protocol) {
        return false;
    }
    if p.protocol.is_icmp() {
        // A rule with ports speaks of ICMP all the same.
    } else if matches!(p.protocol, Protocol::Other(_)) {
        if r.ports.len() > 0 {
            return false;
        }
    } else if !r.port_hit(p.dst_port) {
        return false;
    }
    let src_ok = match p.direction {
        Direction::Inbound => r.src.matches(&p.peer),
        Direction::Outbound => r.src.matches(&p.local),
    };
    let dst_ok = match p.direction {
        Direction::Inbound => r.dst.matches(&p.local),
        Direction::Outbound => r.dst.matches(&p.peer),
    };
    proof {
        assert forall|s: PolicyRule| r.stands_for(s) implies (src_ok && dst_ok && (!r.has_posture
            || p.posture_ok)) == #[trigger] applies(s, p.seen()) by {
            reveal(CompiledRule::stands_for);
            assert(src_ok == selects(s.src, source(p.seen())));
            assert(dst_ok == selects(s.dst, target(p.seen())));
        }
    }
    src_ok && dst_ok && (!r.has_posture || p.posture_ok)
}

/// The rules of one phase.
pub open spec fn in_phase(r: PolicyRule, scope: RuleScope, action: Action) -> bool {
    r.enabled && r.scope == scope && r.action == action
}

/// `v` holds the compiled forms of the rules of a phase, and nothing else.
pub open spec fn phase_of(
    v: Seq<CompiledRule>,
    rules: Seq<PolicyRule>,
    scope: RuleScope,
    action: Action,
) -> bool {
    &&& forall|i: int| 0 <= i < v.len() ==> has_source(#[trigger] v[i], rules, scope, action)
    &&& forall|j: int|
        0 <= j < rules.len() && in_phase(#[trigger] rules[j], scope, action) ==> has_form(
            rules[j],
            v,
        )
}

/// A rule of the phase has this compiled form.
pub open spec fn has_source(
    c: CompiledRule,
    rules: Seq<PolicyRule>,
    scope: RuleScope,
    action: Action,
) -> bool {
    exists|j: int|
        0 <= j < rules.len() && in_phase(#[trigger] rules[j], scope, action) && c.stands_for(
            rules[j],
        )
}

/// The compiled form of the rule is there.
pub open spec fn has_form(r: PolicyRule, v: Seq<CompiledRule>) -> bool {
    exists|i: int| 0 <= i < v.len() && (#[trigger] v[i]).stands_for(r)
}

/// Rules in evaluation order: by index, then by priority.
pub open spec fn rank_le(a: CompiledRule, b: CompiledRule) -> bool {
    a.order_index < b.order_index || (a.order_index == b.order_index && a.priority <= b.priority)
}

pub open spec fn ranked(v: Seq<CompiledRule>) -> bool {
    forall|i: int, j: int|
        #![trigger v[i], v[j]]
        0 <= i <= j < v.len() ==> rank_le(v[i], v[j])
}

/// Puts a rule in its place, behind those of the same rank.
fn insert_ranked(v: &mut Vec<CompiledRule>, c: CompiledRule)
    requires
        ranked(old(v)@),
    ensures
        ranked(final(v)@),
        exists|i: int|
            0 <= i <= old(v)@.len() && final(v)@ == #[trigger] old(v)@.insert(i, c) && (forall|j: int|
                0 <= j < i ==> rank_le(#[trigger] old(v)@[j], c)),
{
    let mut i: usize = v.len();
    while i > 0 && (c.order_index < v[i - 1].order_index || (c.order_index == v[i - 1].order_index
        && c.priority < v[i - 1].priority))
        invariant
            i <= v@.len(),
            v@ == old(v)@,
            ranked(v@),
            forall|j: int| i <= j < v@.len() ==> rank_le(c, #[trigger] v@[j]),
        decreases i,
    {
        i -= 1;
    }
    let ghost s = v@;
    v.insert(i, c);
    proof {
        let t = v@;
        assert forall|j: int| 0 <= j < i implies rank_le(#[trigger] s[j], c) by {
            assert(rank_le(s[j], s[i - 1]));
        }
        assert forall|a: int, b: int|
            #![trigger t[a], t[b]]
            0 <= a <= b < t.len() implies rank_le(t[a], t[b]) by {
            if a < i {
                assert(t[a] == s[a]);
            } else if a > i {
                assert(t[a] == s[a - 1]);
            }
            if b < i {
                assert(t[b] == s[b]);
            } else if b > i {
                assert(t[b] == s[b - 1]);
            }
        }
        assert(t == s.insert(i as int, c));
    }
}

/// One more rule of the source, and what becomes of a phase.
proof fn lemma_phase_step(
    v: Seq<CompiledRule>,
    w: Seq<CompiledRule>,
    rules: Seq<PolicyRule>,
    k: int,
    c: CompiledRule,
    at: int,
    scope: RuleScope,
    action: Action,
)
    requires
        0 <= k < rules.len(),
        phase_of(v, rules.take(k), scope, action),
        in_phase(rules[k], scope, action) ==> c.stands_for(rules[k]) && 0 <= at <= v.len() && w
            == v.insert(at, c),
        !in_phase(rules[k], scope, action) ==> w == v,
    ensures
        phase_of(w, rules.take(k + 1), scope, action),
{
    let a = rules.take(k);
    let b = rules.take(k + 1);
    assert(b[k] == rules[k]);
    let fits = in_phase(rules[k], scope, action);
    assert forall|i: int| 0 <= i < w.len() implies has_source(
        #[trigger] w[i],
        b,
        scope,
        action,
    ) by {
        if fits && i == at {
            assert(w[i].stands_for(b[k]));
        } else {
            let i0 = if fits && i > at {
                i - 1
            } else {
                i
            };
            assert(v[i0] == w[i]);
            assert(has_source(v[i0], a, scope, action));
            let j = choose|j: int|
                0 <= j < a.len() && in_phase(#[trigger] a[j], scope, action) && v[i0].stands_for(
                    a[j],
                );
            assert(b[j] == a[j]);
        }
    }
    assert forall|j: int| 0 <= j < b.len() && in_phase(#[trigger] b[j], scope, action) implies has_form(
        b[j],
        w,
    ) by {
        if j < k {
            assert(a[j] == b[j]);
            assert(has_form(a[j], v));
            let i = choose|i: int| 0 <= i < v.len() && (#[trigger] v[i]).stands_for(a[j]);
            let i2 = if fits && i >= at {
                i + 1
            } else {
                i
            };
            assert(w[i2] == v[i]);
        } else {
            assert(w[at].stands_for(b[j]));
        }
    }
}

/// Whether some rule of a phase applies to the packet.
fn any_hit(
    v: &[CompiledRule],
    p: &Packet,
    Ghost(rules): Ghost<Seq<PolicyRule>>,
    Ghost(scope): Ghost<RuleScope>,
    Ghost(action): Ghost<Action>,
) -> (b: bool)
    requires
        phase_of(v@, rules, scope, action),
    ensures
        b == exists|j: int|
            0 <= j < rules.len() && in_phase(#[trigger] rules[j], scope, action) && applies(
                rules[j],
                p.seen(),
            ),
{
    let mut i: usize = 0;
    while i < v.len()
        invariant
            i <= v@.len(),
            phase_of(v@, rules, scope, action),
            forall|k: int, j: int|
                0 <= k < i && 0 <= j < rules.len() && (#[trigger] v@[k]).stands_for(
                    #[trigger] rules[j],
                ) ==> !applies(rules[j], p.seen()),
        decreases v.len() - i,
    {
        let hit = rule_hit(&v[i], p);
        if hit {
            proof {
                assert(has_source(v@[i as int], rules, scope, action));
                let j = choose|j: int|
                    0 <= j < rules.len() && in_phase(#[trigger] rules[j], scope, action)
                        && v@[i as int].stands_for(rules[j]);
                assert(applies(rules[j], p.seen()));
            }
            return true;
        }
        i += 1;
    }
    proof {
        assert forall|j: int|
            0 <= j < rules.len() && in_phase(#[trigger] rules[j], scope, action) implies !applies(
            rules[j],
            p.seen(),
        ) by {
            assert(has_form(rules[j], v@));
            let k = choose|k: int| 0 <= k < v@.len() && (#[trigger] v@[k]).stands_for(rules[j]);
            assert(v@[k].stands_for(rules[j]));
        }
    }
    false
}

/// The three phases of a rule list, each in evaluation order.
fn compile_phases(rules: &[PolicyRule]) -> (v: (
    Vec<CompiledRule>,
    Vec<CompiledRule>,
    Vec<CompiledRule>,
))
    ensures
        phase_of(v.0@, rules@, RuleScope::Organization, Action::Deny),
        phase_of(v.1@, rules@, RuleScope::Network, Action::Deny),
        phase_of(v.2@, rules@, RuleScope::Network, Action::Allow),
        ranked(v.0@),
        ranked(v.1@),
        ranked(v.2@),
{
    let mut org_deny: Vec<CompiledRule> = Vec::new();
    let mut net_deny: Vec<CompiledRule> = Vec::new();
    let mut net_allow: Vec<CompiledRule> = Vec::new();
    let mut k: usize = 0;
    while k < rules.len()
        invariant
            k <= rules@.len(),
            ranked(org_deny@),
            ranked(net_deny@),
            ranked(net_allow@),
            phase_of(
                org_deny@,
                rules@.take(k as int),
                RuleScope::Organization,
                Action::Deny,
            ),
            phase_of(net_deny@, rules@.take(k as int), RuleScope::Network, Action::Deny),
            phase_of(net_allow@, rules@.take(k as int), RuleScope::Network, Action::Allow),
        decreases rules.len() - k,
    {
        let r = &rules[k];
        let ghost od = org_deny@;
        let ghost nd = net_deny@;
        let ghost na = net_allow@;
        let c = CompiledRule {
            src: Sel::compile(&r.src),
            dst: Sel::compile(&r.dst),
            action: r.action,
            order_index: r.order_index,
            priority: r.priority,
            protocol: r.protocol,
            ports: merge_ports(r.ports.as_slice()),
            has_posture: r.src_posture.len() > 0,
        };
        let ghost gc = c;
        assert(r.enabled ==> c.stands_for(*r)) by {
            reveal(CompiledRule::stands_for);
        }
        if r.enabled {
            match (r.scope, r.action) {
                (RuleScope::Organization, Action::Deny) => {
                    insert_ranked(&mut org_deny, c);
                },
                (RuleScope::Network, Action::Deny) => {
                    insert_ranked(&mut net_deny, c);
                },
                (RuleScope::Network, Action::Allow) => {
                    insert_ranked(&mut net_allow, c);
                },
                _ => {},
            }
        }
        proof {
            let a0 = choose|i: int|
                0 <= i <= od.len() && org_deny@ == #[trigger] od.insert(i, gc);
            let a1 = choose|i: int|
                0 <= i <= nd.len() && net_deny@ == #[trigger] nd.insert(i, gc);
            let a2 = choose|i: int|
                0 <= i <= na.len() && net_allow@ == #[trigger] na.insert(i, gc);
            lemma_phase_step(
                od,
                org_deny@,
                rules@,
                k as int,
                gc,
                a0,
                RuleScope::Organization,
                Action::Deny,
            );
            lemma_phase_step(
                nd,
                net_deny@,
                rules@,
                k as int,
                gc,
                a1,
                RuleScope::Network,
                Action::Deny,
            );
            lemma_phase_step(
                na,
                net_allow@,
                rules@,
                k as int,
                gc,
                a2,
                RuleScope::Network,
                Action::Allow,
            );
        }
        k += 1;
    }
    assert(rules@.take(rules@.len() as int) =~= rules@);
    (org_deny, net_deny, net_allow)
}

/// Compiled ACL snapshot: the enabled rules by phase, each phase in evaluation order.
#[derive(Debug)]
pub struct CompiledAcl {
    pub org_deny: Vec<CompiledRule>,
    pub net_deny: Vec<CompiledRule>,
    pub net_allow: Vec<CompiledRule>,
    pub default_action: Action,
    pub icmp_policy: IcmpPolicy,
}

impl CompiledAcl {
    /// The snapshot says what the bundle says.
    pub open spec fn stands_for(&self, b: PolicyBundle) -> bool {
        &&& phase_of(self.org_deny@, b.rules@, RuleScope::Organization, Action::Deny)
        &&& phase_of(self.net_deny@, b.rules@, RuleScope::Network, Action::Deny)
        &&& phase_of(self.net_allow@, b.rules@, RuleScope::Network, Action::Allow)
        &&& ranked(self.org_deny@)
        &&& ranked(self.net_deny@)
        &&& ranked(self.net_allow@)
        &&& self.default_action == b.default_action
        &&& self.icmp_policy == b.icmp_policy
    }

    pub fn compile(bundle: &PolicyBundle) -> (acl: Self)
        ensures
            acl.stands_for(*bundle),
    {
        let v = compile_phases(bundle.rules.as_slice());
        CompiledAcl {
            org_deny: v.0,
            net_deny: v.1,
            net_allow: v.2,
            default_action: bundle.default_action,
            icmp_policy: bundle.icmp_policy,
        }
    }

    /// The decision on a packet: see [`decision`].
    pub fn verdict(&self, p: &Packet, Ghost(b): Ghost<PolicyBundle>) -> (action: Action)
        requires
            self.stands_for(b),
        ensures
            action == decision(b, p.seen()),
    {
        if p.protocol == Protocol::Icmp {
            match self.icmp_policy {
                IcmpPolicy::Allow => {
                    return Action::Allow;
                },
                IcmpPolicy::Deny => {
                    return Action::Deny;
                },
                IcmpPolicy::Acl => {},
            }
        }
        let ghost rules = b.rules@;
        if any_hit(
            self.org_deny.as_slice(),
            p,
            Ghost(rules),
            Ghost(RuleScope::Organization),
            Ghost(Action::Deny),
        ) {
            return Action::Deny;
        }
        if any_hit(
            self.net_deny.as_slice(),
            p,
            Ghost(rules),
            Ghost(RuleScope::Network),
            Ghost(Action::Deny),
        ) {
            return Action::Deny;
        }
        proof {
            assert forall|i: int|
                0 <= i < rules.len() && denies(#[trigger] rules[i]) implies !applies(
                rules[i],
                p.seen(),
            ) by {
                if rules[i].enabled {
                    if rules[i].scope == RuleScope::Organization {
                        assert(in_phase(rules[i], RuleScope::Organization, Action::Deny));
                    } else {
                        assert(in_phase(rules[i], RuleScope::Network, Action::Deny));
                    }
                }
            }
        }
        if any_hit(
            self.net_allow.as_slice(),
            p,
            Ghost(rules),
            Ghost(RuleScope::Network),
            Ghost(Action::Allow),
        ) {
            return Action::Allow;
        }
        proof {
            assert forall|i: int|
                0 <= i < rules.len() && allows(#[trigger] rules[i]) implies !applies(
                rules[i],
                p.seen(),
            ) by {
                if rules[i].enabled {
                    assert(in_phase(rules[i], RuleScope::Network, Action::Allow));
                }
            }
        }
        self.default_action
    }

    /// Whether the bundle carries no rule that counts.
    pub fn is_empty_open(&self) -> (b: bool)
        ensures
            b == (self.org_deny@.len() == 0 && self.net_deny@.len() == 0 && self.net_allow@.len()
                == 0),
            forall|s: PolicyBundle| self.stands_for(s) ==> b == #[trigger] ruleless(s),
    {
        let b = self.org_deny.len() == 0 && self.net_deny.len() == 0 && self.net_allow.len() == 0;
        proof {
            assert forall|s: PolicyBundle| self.stands_for(s) implies b == #[trigger] ruleless(
                s,
            ) by {
                let rules = s.rules@;
                if b {
                    assert forall|i: int| 0 <= i < rules.len() implies !counts(
                        #[trigger] rules[i],
                    ) by {
                        if counts(rules[i]) {
                            assert(in_phase(rules[i], rules[i].scope, rules[i].action));
                            if rules[i].scope == RuleScope::Organization {
                                assert(has_form(rules[i], self.org_deny@));
                            } else if rules[i].action == Action::Deny {
                                assert(has_form(rules[i], self.net_deny@));
                            } else {
                                assert(has_form(rules[i], self.net_allow@));
                            }
                        }
                    }
                } else {
                    let (v, scope, action) = if self.org_deny@.len() > 0 {
                        (self.org_deny@, RuleScope::Organization, Action::Deny)
                    } else if self.net_deny@.len() > 0 {
                        (self.net_deny@, RuleScope::Network, Action::Deny)
                    } else {
                        (self.net_allow@, RuleScope::Network, Action::Allow)
                    };
                    assert(phase_of(v, rules, scope, action));
                    assert(has_source(v[0], rules, scope, action));
                    let j = choose|j: int|
                        0 <= j < rules.len() && in_phase(#[trigger] rules[j], scope, action)
                            && v[0].stands_for(rules[j]);
                    assert(counts(rules[j]));
                }
            }
        }
        b
    }

    pub fn default_is_allow(&self) -> (b: bool)
        ensures
            b == (self.default_action == Action::Allow),
    {
        matches!(self.default_action, Action::Allow)
    }
}

/// A rule that can decide: an enabled deny, or an enabled allow of the network.
pub open spec fn counts(r: PolicyRule) -> bool {
    r.enabled && (denies(r) || allows(r))
}

/// No rule can decide.
pub open spec fn ruleless(b: PolicyBundle) -> bool {
    forall|i: int| 0 <= i < b.rules@.len() ==> !counts(#[trigger] b.rules@[i])
}

} // verus!
