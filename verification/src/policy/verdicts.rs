//! What the rules of a network come to on a packet, in terms of the packet itself.

use super::acl::{has_form, has_source, in_phase, CompiledAcl};
use super::blocks::{first_address, law_block_is_a_range};
use super::firewall::{
    law_compiled_rules_decide_alike, rules_say, FirewallAction, FirewallDirection, FirewallRule,
    PeerFilter, PolicyVerdict,
};
use super::flows::{CanonKey, TrackedFlow};
use super::judge::{judged, Clock, InForce, Memory, PeerSeen};
use super::meta::{PacketMeta, Transport};
use super::rules::{
    texts, Action, Cidr, Direction, IcmpPolicy, PolicyBundle, PolicyRule, Protocol, RuleScope,
    Selector,
};
use super::slots::FwSource;
use crate::text::lowered;
use vstd::arithmetic::power2::pow2;
use vstd::prelude::*;

verus! {

/// A whole TCP or UDP packet, by its protocol and ports.
pub open spec fn carries_ports(meta: PacketMeta, proto: Protocol, sport: u16, dport: u16) -> bool {
    &&& meta.fragmentation is Whole
    &&& match meta.transport {
        Transport::Tcp { src_port, dst_port, flags: _ } => proto == Protocol::Tcp && src_port
            == sport && dst_port == dport,
        Transport::Udp { src_port, dst_port } => proto == Protocol::Udp && src_port == sport
            && dst_port == dport,
        _ => false,
    }
}

/// Nothing but the access rules decides: no flow is tracked, the firewall is off, and the
/// control plane is in reach.
pub open spec fn rules_decide(m: Memory, p: InForce) -> bool {
    &&& m.watch.flows == Map::<CanonKey, TrackedFlow>::empty()
    &&& !p.fw.set.enabled
    &&& !p.stale
}

/// A rule without conditions but for those on its ends.
pub open spec fn bare(r: PolicyRule) -> bool {
    &&& r.enabled
    &&& r.ports@.len() == 0
    &&& r.protocol is None
    &&& r.src_posture@.len() == 0
}

/// A rule that denies a port denies the packets to that port: it is the destination port of
/// the transport header that counts. Whatever else the bundle says, the first packet of a
/// flow to a port in one of the rule's ranges is denied.
pub proof fn law_denied_port_is_shut(
    m: Memory,
    p: InForce,
    meta: PacketMeta,
    direction: Direction,
    peer: PeerSeen,
    c: Clock,
    proto: Protocol,
    sport: u16,
    dport: u16,
    src: u32,
    dst: u32,
    i: int,
    j: int,
)
    requires
        m.watch.flows == Map::<CanonKey, TrackedFlow>::empty(),
        carries_ports(meta, proto, sport, dport),
        meta.src_v4 == Some(src),
        meta.dst_v4 == Some(dst),
        0 <= i < p.bundle.rules@.len(),
        p.bundle.rules@[i].enabled,
        p.bundle.rules@[i].action == Action::Deny,
        p.bundle.rules@[i].src is Any,
        p.bundle.rules@[i].dst is Any,
        p.bundle.rules@[i].src_posture@.len() == 0,
        p.bundle.rules@[i].protocol is None || p.bundle.rules@[i].protocol == Some(proto)
            || p.bundle.rules@[i].protocol == Some(Protocol::Any),
        0 <= j < p.bundle.rules@[i].ports@.len(),
        p.bundle.rules@[i].ports@[j].start <= dport <= p.bundle.rules@[i].ports@[j].end,
    ensures
        judged(m, p, meta, direction, peer, c).1 == PolicyVerdict::Deny,
{
    let r = p.bundle.rules@[i];
    assert(super::rules::covered(r.ports@, dport));
    assert(super::rules::denies(r));
    assert(super::acl::counts(r));
}

/// A rule with ports leaves packets to other ports alone, whatever port they come from:
/// where no range of any deny rule holds the destination port, an open network lets the
/// packet pass.
pub proof fn law_other_ports_stay_open(
    m: Memory,
    p: InForce,
    meta: PacketMeta,
    direction: Direction,
    peer: PeerSeen,
    c: Clock,
    proto: Protocol,
    sport: u16,
    dport: u16,
    src: u32,
    dst: u32,
)
    requires
        rules_decide(m, p),
        carries_ports(meta, proto, sport, dport),
        meta.src_v4 == Some(src),
        meta.dst_v4 == Some(dst),
        p.bundle.default_action == Action::Allow,
        forall|i: int|
            0 <= i < p.bundle.rules@.len() && (#[trigger] p.bundle.rules@[i]).action
                == Action::Deny ==> p.bundle.rules@[i].ports@.len() > 0 && forall|j: int|
                0 <= j < p.bundle.rules@[i].ports@.len() ==> !((
                #[trigger] p.bundle.rules@[i].ports@[j]).start <= dport
                    <= p.bundle.rules@[i].ports@[j].end),
    ensures
        judged(m, p, meta, direction, peer, c).1 == PolicyVerdict::Allow,
{
}

/// The verdict of one bare rule on the packets that it does and does not speak of.
proof fn lemma_bare_rule(
    m: Memory,
    p: InForce,
    meta: PacketMeta,
    direction: Direction,
    peer: PeerSeen,
    c: Clock,
    proto: Protocol,
    sport: u16,
    dport: u16,
    src: u32,
    dst: u32,
    r: PolicyRule,
    fits: bool,
)
    requires
        rules_decide(m, p),
        carries_ports(meta, proto, sport, dport),
        meta.src_v4 == Some(src),
        meta.dst_v4 == Some(dst),
        p.bundle.rules@ == seq![r],
        p.bundle.default_action != r.action,
        r.scope == RuleScope::Network,
        bare(r),
        fits == ({
            let s = super::judge::subject_of(
                p,
                peer,
                super::meta::resolved(meta.transport)->Some_0,
                direction,
                src,
                dst,
            );
            super::rules::selects(r.src, super::rules::source(s)) && super::rules::selects(
                r.dst,
                super::rules::target(s),
            )
        }),
    ensures
        judged(m, p, meta, direction, peer, c).1 == (if fits == (r.action == Action::Deny) {
            PolicyVerdict::Deny
        } else {
            PolicyVerdict::Allow
        }),
{
    assert(p.bundle.rules@[0] == r);
}

/// A rule on the addresses that packets come from speaks of the sender: the packet's source
/// where it comes in, this node where it goes out. The block holds the `2^(32 - prefix)`
/// addresses from its first one up.
pub proof fn law_rule_on_senders(
    m: Memory,
    p: InForce,
    meta: PacketMeta,
    direction: Direction,
    peer: PeerSeen,
    c: Clock,
    proto: Protocol,
    sport: u16,
    dport: u16,
    src: u32,
    dst: u32,
    r: PolicyRule,
    addr: u32,
    prefix: u8,
)
    requires
        rules_decide(m, p),
        carries_ports(meta, proto, sport, dport),
        meta.src_v4 == Some(src),
        meta.dst_v4 == Some(dst),
        p.bundle.rules@ == seq![r],
        p.bundle.default_action != r.action,
        r.scope == RuleScope::Network,
        bare(r),
        r.src == Selector::Cidr(Cidr::V4 { addr, prefix }),
        r.dst is Any,
        prefix <= 32,
    ensures
        ({
            let sender = if direction is Inbound {
                src
            } else {
                p.local.ip
            };
            let first = first_address(addr, prefix);
            let fits = first <= sender < first + pow2((32 - prefix) as nat);
            judged(m, p, meta, direction, peer, c).1 == (if fits == (r.action == Action::Deny) {
                PolicyVerdict::Deny
            } else {
                PolicyVerdict::Allow
            })
        }),
{
    let sender = if direction is Inbound {
        src
    } else {
        p.local.ip
    };
    law_block_is_a_range(addr, prefix, sender);
    let first = first_address(addr, prefix);
    let fits = first <= sender < first + pow2((32 - prefix) as nat);
    lemma_bare_rule(m, p, meta, direction, peer, c, proto, sport, dport, src, dst, r, fits);
}

/// A rule on the addresses that packets go to speaks of the receiver: the packet's
/// destination where it goes out, this node where it comes in.
pub proof fn law_rule_on_receivers(
    m: Memory,
    p: InForce,
    meta: PacketMeta,
    direction: Direction,
    peer: PeerSeen,
    c: Clock,
    proto: Protocol,
    sport: u16,
    dport: u16,
    src: u32,
    dst: u32,
    r: PolicyRule,
    addr: u32,
    prefix: u8,
)
    requires
        rules_decide(m, p),
        carries_ports(meta, proto, sport, dport),
        meta.src_v4 == Some(src),
        meta.dst_v4 == Some(dst),
        p.bundle.rules@ == seq![r],
        p.bundle.default_action != r.action,
        r.scope == RuleScope::Network,
        bare(r),
        r.dst == Selector::Cidr(Cidr::V4 { addr, prefix }),
        r.src is Any,
        prefix <= 32,
    ensures
        ({
            let receiver = if direction is Outbound {
                dst
            } else {
                p.local.ip
            };
            let first = first_address(addr, prefix);
            let fits = first <= receiver < first + pow2((32 - prefix) as nat);
            judged(m, p, meta, direction, peer, c).1 == (if fits == (r.action == Action::Deny) {
                PolicyVerdict::Deny
            } else {
                PolicyVerdict::Allow
            })
        }),
{
    let receiver = if direction is Outbound {
        dst
    } else {
        p.local.ip
    };
    law_block_is_a_range(addr, prefix, receiver);
    let first = first_address(addr, prefix);
    let fits = first <= receiver < first + pow2((32 - prefix) as nat);
    lemma_bare_rule(m, p, meta, direction, peer, c, proto, sport, dport, src, dst, r, fits);
}

/// A rule on endpoints, tags, users or networks speaks of the packet where its two ends are
/// so named: the sender by the rule's source, the receiver by its target.
pub proof fn law_rule_on_names(
    m: Memory,
    p: InForce,
    meta: PacketMeta,
    direction: Direction,
    peer: PeerSeen,
    c: Clock,
    proto: Protocol,
    sport: u16,
    dport: u16,
    src: u32,
    dst: u32,
    r: PolicyRule,
    name: String,
)
    requires
        rules_decide(m, p),
        carries_ports(meta, proto, sport, dport),
        meta.src_v4 == Some(src),
        meta.dst_v4 == Some(dst),
        p.bundle.rules@ == seq![r],
        p.bundle.default_action != r.action,
        r.scope == RuleScope::Network,
        bare(r),
    ensures
        ({
            let (hex, tags) = if direction is Inbound {
                (peer.hex, peer.tags)
            } else {
                (p.local.endpoint_hex@, texts(p.local.tags@))
            };
            let (hex2, tags2) = if direction is Outbound {
                (peer.hex, peer.tags)
            } else {
                (p.local.endpoint_hex@, texts(p.local.tags@))
            };
            let v = judged(m, p, meta, direction, peer, c).1;
            let deny = r.action == Action::Deny;
            &&& r.src is Any && r.dst is Any ==> (v is Deny) == deny
            &&& r.src == Selector::Endpoint(name) && r.dst is Any ==> (v is Deny) == (deny == (
            lowered(name@) == lowered(hex)))
            &&& r.dst == Selector::Endpoint(name) && r.src is Any ==> (v is Deny) == (deny == (
            lowered(name@) == lowered(hex2)))
            &&& r.src == Selector::Tag(name) && r.dst is Any ==> (v is Deny) == (deny
                == tags.contains(name@))
            &&& r.dst == Selector::Tag(name) && r.src is Any ==> (v is Deny) == (deny
                == tags2.contains(name@))
            &&& r.src == Selector::Network(name) && r.dst is Any ==> (v is Deny) == (deny == (
            name@ == p.local.network@))
            &&& r.src == Selector::User(name) && r.dst is Any && tags.contains("user:"@ + name@)
                ==> (v is Deny) == deny
            &&& r.dst == Selector::User(name) && r.src is Any && tags2.contains("user:"@ + name@)
                ==> (v is Deny) == deny
            &&& r.src == Selector::User(name) && r.dst is Any && tags.len() == 0 ==> (v is Deny)
                == !deny
            &&& v is Deny || v is Allow
        }),
{
    let s = super::judge::subject_of(
        p,
        peer,
        super::meta::resolved(meta.transport)->Some_0,
        direction,
        src,
        dst,
    );
    let fits = super::rules::selects(r.src, super::rules::source(s)) && super::rules::selects(
        r.dst,
        super::rules::target(s),
    );
    let user = "user:"@ + name@;
    if peer.tags.contains(user) {
        let i = choose|i: int| 0 <= i < peer.tags.len() && peer.tags[i] == user;
        assert(peer.tags[i] == super::rules::user_tag(name@));
    }
    let own = texts(p.local.tags@);
    if own.contains(user) {
        let i = choose|i: int| 0 <= i < own.len() && own[i] == user;
        assert(own[i] == super::rules::user_tag(name@));
    }
    lemma_bare_rule(m, p, meta, direction, peer, c, proto, sport, dport, src, dst, r, fits);
    let (hex, tags) = if direction is Inbound {
        (peer.hex, peer.tags)
    } else {
        (p.local.endpoint_hex@, own)
    };
    let (hex2, tags2) = if direction is Outbound {
        (peer.hex, peer.tags)
    } else {
        (p.local.endpoint_hex@, own)
    };
    let a = super::rules::source(s);
    let b = super::rules::target(s);
    assert(a.endpoint == hex);
    assert(a.tags == tags);
    assert(b.endpoint == hex2);
    assert(b.tags == tags2);
    assert(r.src == Selector::Endpoint(name) && r.dst is Any ==> fits == (lowered(name@) == lowered(hex)));
    assert(r.src == Selector::Tag(name) && r.dst is Any ==> fits == tags.contains(name@));
    assert(r.src == Selector::Network(name) && r.dst is Any ==> fits == (name@ == p.local.network@));
    assert(r.src == Selector::User(name) && r.dst is Any && tags.contains(user) ==> fits);
    assert(r.dst == Selector::User(name) && r.src is Any && tags2.contains(user) ==> fits);
    assert(r.src == Selector::User(name) && r.dst is Any && tags.len() == 0 ==> !fits);
}

/// Rules that are switched off, that name another protocol, or whose posture checks are not
/// met speak of nothing; allow rules of the organization alone open nothing.
pub proof fn law_rules_that_do_not_count(
    m: Memory,
    p: InForce,
    meta: PacketMeta,
    direction: Direction,
    peer: PeerSeen,
    c: Clock,
    proto: Protocol,
    sport: u16,
    dport: u16,
    src: u32,
    dst: u32,
)
    requires
        rules_decide(m, p),
        carries_ports(meta, proto, sport, dport),
        meta.src_v4 == Some(src),
        meta.dst_v4 == Some(dst),
        forall|i: int|
            0 <= i < p.bundle.rules@.len() ==> {
                let r = #[trigger] p.bundle.rules@[i];
                ||| !r.enabled
                ||| r.protocol == Some(Protocol::Icmp)
                ||| r.protocol == Some(Protocol::Icmpv6)
                ||| (proto == Protocol::Tcp && r.protocol == Some(Protocol::Udp))
                ||| (proto == Protocol::Udp && r.protocol == Some(Protocol::Tcp))
                ||| (r.src_posture@.len() > 0 && !p.posture_ok)
                ||| (r.action == Action::Allow && r.scope == RuleScope::Organization)
            },
    ensures
        judged(m, p, meta, direction, peer, c).1 == (if p.bundle.default_action == Action::Deny {
            PolicyVerdict::Deny
        } else {
            PolicyVerdict::Allow
        }),
{
}

/// The bundle's word on ICMP overrules its rules, and is about ICMP alone; where it leaves
/// ICMP to the rules and there are none, the default decides.
pub proof fn law_word_on_icmp(
    m: Memory,
    p: InForce,
    meta: PacketMeta,
    direction: Direction,
    peer: PeerSeen,
    c: Clock,
    src: u32,
    dst: u32,
    type_u8: u8,
    code: u8,
    echo_id: Option<u16>,
    echo_seq: Option<u16>,
)
    requires
        rules_decide(m, p),
        meta.fragmentation is Whole,
        meta.transport == (Transport::Icmpv4 { type_u8, code, echo_id, echo_seq }),
        meta.src_v4 == Some(src),
        meta.dst_v4 == Some(dst),
    ensures
        ({
            let v = judged(m, p, meta, direction, peer, c).1;
            &&& p.bundle.icmp_policy == IcmpPolicy::Deny ==> v == PolicyVerdict::Deny
            &&& p.bundle.icmp_policy == IcmpPolicy::Allow ==> v == PolicyVerdict::Allow
            &&& p.bundle.icmp_policy == IcmpPolicy::Acl && p.bundle.rules@.len() == 0 ==> (v
                == PolicyVerdict::Allow) == (p.bundle.default_action == Action::Allow)
        }),
{
}

/// Nothing but the firewall decides: no flow is tracked, and the network is open.
pub open spec fn firewall_decides(m: Memory, p: InForce) -> bool {
    &&& m.watch.flows == Map::<CanonKey, TrackedFlow>::empty()
    &&& p.bundle.rules@.len() == 0
    &&& p.bundle.default_action == Action::Allow
    &&& p.fw.set.enabled
}

/// Without rules, the firewall lets out what goes out and lets in what comes from a known
/// peer; from an unknown one it lets in an ICMP echo request and nothing else.
pub proof fn law_firewall_default(
    m: Memory,
    p: InForce,
    meta: PacketMeta,
    direction: Direction,
    peer: PeerSeen,
    c: Clock,
    src: u32,
    dst: u32,
)
    requires
        firewall_decides(m, p),
        p.fw.set.rules@.len() == 0,
        p.bundle.icmp_policy == IcmpPolicy::Acl,
        meta.fragmentation is Whole,
        !(meta.transport is LaterFragment),
        meta.src_v4 == Some(src),
        meta.dst_v4 == Some(dst),
    ensures
        ({
            let v = judged(m, p, meta, direction, peer, c).1;
            let echo = meta.transport matches Transport::Icmpv4 { type_u8, .. } && type_u8 == 8;
            &&& direction is Outbound ==> v == PolicyVerdict::Allow
            &&& direction is Inbound && peer.hex.len() > 0 ==> v == PolicyVerdict::Allow
            &&& direction is Inbound && peer.hex.len() == 0 ==> v == (if echo {
                PolicyVerdict::Allow
            } else {
                PolicyVerdict::Deny
            })
        }),
{
}

/// The firewall's rules are those of `src`, as they were compiled.
pub open spec fn enforced(p: InForce, src: FwSource) -> bool {
    super::firewall::all_stand_for(p.fw.set.rules@, src.local@ + src.suggested@)
}

/// The firewall rule names the packet: its direction, its protocol, its destination port,
/// its peer.
pub open spec fn names_packet(
    r: FirewallRule,
    direction: Direction,
    proto: Protocol,
    dport: u16,
    peer: PeerSeen,
) -> bool {
    &&& direction is Inbound ==> r.direction == FirewallDirection::In
    &&& direction is Outbound ==> r.direction == FirewallDirection::Out
    &&& r.protocol == proto || r.protocol == Protocol::Any
    &&& r.ports@.len() == 0 || exists|j: int|
        0 <= j < r.ports@.len() && (#[trigger] r.ports@[j]).start <= dport <= r.ports@[j].end
    &&& match r.peer {
        PeerFilter::Any => true,
        PeerFilter::Endpoint(e) => lowered(e@) == lowered(peer.hex),
        PeerFilter::Hostname(h) => peer.hostname is Some && lowered(peer.hostname->0) == lowered(
            h@,
        ),
        PeerFilter::NetworkId(n) => super::firewall::network_id_of(n@) is None || peer.network
            == super::firewall::network_id_of(n@),
    }
}

/// The first firewall rule that names a packet decides on it, the local ones first: allow,
/// deny or reject. Where none does, the built-in default decides.
pub proof fn law_first_firewall_rule_decides(
    m: Memory,
    p: InForce,
    meta: PacketMeta,
    direction: Direction,
    peer: PeerSeen,
    c: Clock,
    proto: Protocol,
    sport: u16,
    dport: u16,
    src: u32,
    dst: u32,
    from: FwSource,
    i: int,
)
    requires
        firewall_decides(m, p),
        enforced(p, from),
        carries_ports(meta, proto, sport, dport),
        meta.src_v4 == Some(src),
        meta.dst_v4 == Some(dst),
        0 <= i <= (from.local@ + from.suggested@).len(),
        forall|j: int|
            0 <= j < i ==> !names_packet(
                #[trigger] (from.local@ + from.suggested@)[j],
                direction,
                proto,
                dport,
                peer,
            ),
        i < (from.local@ + from.suggested@).len() ==> names_packet(
            (from.local@ + from.suggested@)[i],
            direction,
            proto,
            dport,
            peer,
        ),
    ensures
        ({
            let rules = from.local@ + from.suggested@;
            let v = judged(m, p, meta, direction, peer, c).1;
            &&& i < rules.len() ==> v == (match rules[i].action {
                FirewallAction::Allow => PolicyVerdict::Allow,
                FirewallAction::Deny => PolicyVerdict::Deny,
                FirewallAction::Reject => PolicyVerdict::Reject,
            })
            &&& i == rules.len() ==> v == (if direction is Outbound || peer.hex.len() > 0 {
                PolicyVerdict::Allow
            } else {
                PolicyVerdict::Deny
            })
        }),
{
    let rules = from.local@ + from.suggested@;
    let l4 = super::meta::resolved(meta.transport)->Some_0;
    let s = super::judge::fw_subject(peer, l4, direction);
    law_compiled_rules_decide_alike(p.fw.set.rules@, rules, s);
    assert forall|j: int| 0 <= j < rules.len() implies super::firewall::speaks_of(
        #[trigger] rules[j],
        s,
    ) == names_packet(rules[j], direction, proto, dport, peer) by {}
    lemma_first_rule(rules, s, i);
}

proof fn lemma_first_rule(rules: Seq<FirewallRule>, s: super::firewall::FwSubject, i: int)
    requires
        0 <= i <= rules.len(),
        forall|j: int| 0 <= j < i ==> !super::firewall::speaks_of(#[trigger] rules[j], s),
        i < rules.len() ==> super::firewall::speaks_of(rules[i], s),
    ensures
        rules_say(rules, s) == (if i < rules.len() {
            Some(super::firewall::outcome(rules[i].action))
        } else {
            None
        }),
    decreases rules.len(),
{
    if rules.len() > 0 && i > 0 {
        let t = rules.drop_first();
        assert(!super::firewall::speaks_of(rules[0], s));
        assert forall|j: int| 0 <= j < i - 1 implies !super::firewall::speaks_of(
            #[trigger] t[j],
            s,
        ) by {
            assert(t[j] == rules[j + 1]);
        }
        lemma_first_rule(t, s, i - 1);
    }
}

/// A denial of the access rules is written down with the peer, the destination port and the
/// time; what the firewall refuses is counted, and so is what it lets pass; no flow is
/// tracked for a packet that does not pass.
pub proof fn law_refusals_are_on_record(
    m: Memory,
    p: InForce,
    meta: PacketMeta,
    direction: Direction,
    peer: PeerSeen,
    c: Clock,
    proto: Protocol,
    sport: u16,
    dport: u16,
    src: u32,
    dst: u32,
)
    requires
        m.watch.flows == Map::<CanonKey, TrackedFlow>::empty(),
        carries_ports(meta, proto, sport, dport),
        meta.src_v4 == Some(src),
        meta.dst_v4 == Some(dst),
        m.counters.denied < u64::MAX,
        m.counters.rejected < u64::MAX,
        m.counters.allowed < u64::MAX,
    ensures
        ({
            let (n, v) = judged(m, p, meta, direction, peer, c);
            let d = n.denies;
            &&& !p.fw.set.enabled && v is Deny ==> d.len() > 0 && d.last().peer_endpoint == peer.hex
                && d.last().dst_port == Some(dport) && d.last().at_unix == c.unix && d.len() == (
            if m.denies.len() >= 64 {
                m.denies.len()
            } else {
                m.denies.len() + 1
            })
            &&& v is Allow ==> d == m.denies
            &&& !p.fw.set.enabled ==> n.counters == m.counters
            &&& !(v is Allow) ==> n.watch.flows == m.watch.flows
            &&& v is Allow ==> n.watch.flows.dom().len() == 1
            &&& p.fw.set.enabled && v is Reject ==> n.counters.rejected == m.counters.rejected + 1
                && n.counters.allowed == m.counters.allowed && n.counters.denied
                == m.counters.denied
            &&& p.fw.set.enabled && v is Allow ==> n.counters.allowed == m.counters.allowed + 1
                && n.counters.denied == m.counters.denied && n.counters.rejected
                == m.counters.rejected
            &&& p.fw.set.enabled && v is Deny && p.bundle.rules@.len() == 0
                && p.bundle.default_action == Action::Allow ==> n.counters.denied
                == m.counters.denied + 1 && d == m.denies
        }),
{
    let n = judged(m, p, meta, direction, peer, c).0;
    let k = super::judge::key_of(
        peer,
        super::meta::resolved(meta.transport)->Some_0,
        src,
        dst,
    )->Some_0;
    assert(Map::<CanonKey, TrackedFlow>::empty().dom().insert(k) =~= Set::empty().insert(k));
    if judged(m, p, meta, direction, peer, c).1 is Allow {
        assert(n.watch.flows.dom() =~= Set::empty().insert(k));
    }
}

/// The rules of a snapshot stand by their place in the order, and of the same place by their
/// priority.
pub proof fn law_rules_stand_in_order(a: CompiledAcl, b: PolicyBundle, i: int, j: int)
    requires
        a.stands_for(b),
        0 <= i < j < a.net_deny@.len(),
    ensures
        a.net_deny@[i].order_index <= a.net_deny@[j].order_index,
        a.net_deny@[i].order_index == a.net_deny@[j].order_index ==> a.net_deny@[i].priority
            <= a.net_deny@[j].priority,
        a.default_action == b.default_action,
        a.icmp_policy == b.icmp_policy,
{
}

/// Every rule of a snapshot is an enabled rule of the bundle.
pub proof fn law_rules_come_from_the_bundle(a: CompiledAcl, b: PolicyBundle, i: int) -> (k: int)
    requires
        a.stands_for(b),
        0 <= i < a.net_deny@.len(),
    ensures
        0 <= k < b.rules@.len(),
        b.rules@[k].enabled,
        b.rules@[k].scope == RuleScope::Network,
        b.rules@[k].action == Action::Deny,
        a.net_deny@[i].stands_for(b.rules@[k]),
{
    assert(has_source(a.net_deny@[i], b.rules@, RuleScope::Network, Action::Deny));
    choose|k: int|
        0 <= k < b.rules@.len() && in_phase(
            #[trigger] b.rules@[k],
            RuleScope::Network,
            Action::Deny,
        ) && a.net_deny@[i].stands_for(b.rules@[k])
}

/// No enabled rule of the bundle is missing in its snapshot.
pub proof fn law_no_rule_is_missing(a: CompiledAcl, b: PolicyBundle, n: int) -> (k: int)
    requires
        a.stands_for(b),
        0 <= n < b.rules@.len(),
        b.rules@[n].enabled,
        b.rules@[n].scope == RuleScope::Network,
    ensures
        b.rules@[n].action == Action::Deny ==> 0 <= k < a.net_deny@.len()
            && a.net_deny@[k].stands_for(b.rules@[n]),
        b.rules@[n].action == Action::Allow ==> 0 <= k < a.net_allow@.len()
            && a.net_allow@[k].stands_for(b.rules@[n]),
{
    assert(in_phase(b.rules@[n], RuleScope::Network, b.rules@[n].action));
    if b.rules@[n].action == Action::Deny {
        assert(has_form(b.rules@[n], a.net_deny@));
        choose|k: int| 0 <= k < a.net_deny@.len() && (#[trigger] a.net_deny@[k]).stands_for(b.rules@[n])
    } else {
        assert(has_form(b.rules@[n], a.net_allow@));
        choose|k: int|
            0 <= k < a.net_allow@.len() && (#[trigger] a.net_allow@[k]).stands_for(b.rules@[n])
    }
}

} // verus!
