//! What the policy runtime decides on a packet, and what it remembers of it.

use super::acl::ruleless;
use super::canon::canon;
use super::denylog::{denial, logged, DenyView};
use super::firewall::{compiled_say, FwSubject, PolicyVerdict};
use super::flows::{
    has_flag, lapsed, touched, ttl_ms, CanonKey, Phase, TcpPhase, TrackedFlow, ACK, FIN, RST, SYN,
};
use super::fragments::{recalled, remembered, FragEntry};
use super::meta::{resolved, FragKey, PacketMeta, ResolvedL4};
use super::rules::{
    decision, texts, Direction, PartyView, PolicyBundle, Protocol, SelfIdentity, Subject,
};
use super::slots::{counted, FwCounters, FwSet, FwSnapshot};
use super::wheel::{
    lemma_reaped_within, reap_at, shard_of, with_node, ExpiryNode, Watch, REAP_BUDGET,
};
use vstd::prelude::*;

verus! {

/// The clocks: monotonic nanoseconds, wall-clock milliseconds, and seconds since the
/// Unix epoch.
#[derive(Debug, Clone, Copy, PartialEq, Eq, Structural)]
pub struct Clock {
    pub now: u64,
    pub now_ms: u64,
    pub unix: i64,
}

/// What a peer is known by.
pub struct PeerFacts<'a> {
    pub hex: &'a str,
    pub tags: &'a [String],
    pub hostname: Option<&'a str>,
    pub network: Option<u128>,
}

/// [`PeerFacts`] by their texts.
pub struct PeerSeen {
    pub hex: Seq<char>,
    pub tags: Seq<Seq<char>>,
    pub hostname: Option<Seq<char>>,
    pub network: Option<u128>,
}

impl<'a> PeerFacts<'a> {
    pub open spec fn seen(&self) -> PeerSeen {
        PeerSeen {
            hex: self.hex@,
            tags: texts(self.tags@),
            hostname: match self.hostname {
                Some(h) => Some(h@),
                None => None,
            },
            network: self.network,
        }
    }
}

/// The policy that is in force.
pub struct InForce {
    pub generation: u64,
    pub bundle: PolicyBundle,
    pub local: SelfIdentity,
    pub posture_ok: bool,
    pub stale: bool,
    pub fw: FwSnapshot,
}

/// What packets change.
pub struct Memory {
    pub watch: Watch,
    pub frags: Map<FragKey, FragEntry>,
    pub denies: Seq<DenyView>,
    pub counters: FwCounters,
}

/// The transport facts of a packet: a later fragment has those of its first fragment.
pub open spec fn facts_of(
    frags: Map<FragKey, FragEntry>,
    meta: PacketMeta,
    now: u64,
) -> Option<ResolvedL4> {
    if meta.later() {
        recalled(frags, meta, now)
    } else {
        resolved(meta.transport)
    }
}

/// The network that a packet's flow belongs to.
pub open spec fn flow_network(peer: PeerSeen) -> u128 {
    match peer.network {
        Some(n) => n,
        None => 0,
    }
}

pub open spec fn key_of(peer: PeerSeen, l4: ResolvedL4, src: u32, dst: u32) -> Option<CanonKey> {
    canon(flow_network(peer), l4.protocol, src, dst, l4.src_port, l4.dst_port)
}

/// The flow is tracked, is still alive, and was let in by the very policy that is in
/// force.
pub open spec fn established(
    flows: Map<CanonKey, TrackedFlow>,
    key: Option<CanonKey>,
    p: InForce,
    now: u64,
) -> bool {
    match key {
        Some(k) => flows.dom().contains(k) && !lapsed(flows[k], now)
            && flows[k].admitted_acl_gen == p.generation && flows[k].admitted_fw_gen
            == p.fw.generation,
        None => false,
    }
}

/// A lapsed flow is forgotten when a packet of it comes.
pub open spec fn without_lapsed(w: Watch, key: Option<CanonKey>, now: u64) -> Watch {
    match key {
        Some(k) => if w.flows.dom().contains(k) && lapsed(w.flows[k], now) {
            Watch { flows: w.flows.remove(k), ..w }
        } else {
            w
        },
        None => w,
    }
}

pub open spec fn due_at(now_ms: u64, phase: Phase) -> u64 {
    if now_ms + ttl_ms(phase) > u64::MAX {
        u64::MAX
    } else {
        (now_ms + ttl_ms(phase)) as u64
    }
}

pub open spec fn watched(
    shards: Seq<Seq<ExpiryNode>>,
    key: CanonKey,
    expires_ms: u64,
    seq: u64,
) -> Seq<Seq<ExpiryNode>> {
    shards.update(
        shard_of(key),
        with_node(shards[shard_of(key)], ExpiryNode { expires_ms, seq, key }),
    )
}

/// Another packet of an established flow.
pub open spec fn refreshed(w: Watch, k: CanonKey, inbound: bool, flags: u8, c: Clock) -> Watch {
    let r = touched(w.flows[k], inbound, flags, c.now, c.now_ms);
    let shards = if r.1 {
        watched(w.shards, k, due_at(c.now_ms, r.0.phase), r.0.seq)
    } else {
        w.shards
    };
    reap_at(
        Watch { shards, flows: w.flows.insert(k, r.0) },
        shard_of(k),
        REAP_BUDGET as nat,
        c.now_ms,
        c.now,
    )
}

/// The phase in which a flow starts.
pub open spec fn first_phase(proto: Protocol, flags: u8) -> Option<Phase> {
    match proto {
        Protocol::Tcp => if has_flag(flags, SYN) && !has_flag(flags, ACK) {
            Some(Phase::Tcp(TcpPhase::SynSent))
        } else if has_flag(flags, FIN) || has_flag(flags, RST) {
            Some(Phase::Tcp(TcpPhase::TimeWait))
        } else {
            Some(Phase::Tcp(TcpPhase::Established))
        },
        Protocol::Udp => Some(Phase::Udp),
        Protocol::Icmp => Some(Phase::Icmp),
        Protocol::Icmpv6 => Some(Phase::Icmp),
        Protocol::Any => None,
        Protocol::Other(_) => None,
    }
}

/// The phase of a flow that is let in again.
pub open spec fn rejoined_phase(old_phase: Phase, phase: Phase) -> Phase {
    if phase == Phase::Tcp(TcpPhase::TimeWait) {
        phase
    } else if old_phase == Phase::Tcp(TcpPhase::SynSent) && phase == Phase::Tcp(
        TcpPhase::Established,
    ) {
        phase
    } else {
        old_phase
    }
}

/// A flow that policy lets in is tracked, under the generations that decided.
pub open spec fn opened(
    w: Watch,
    key: Option<CanonKey>,
    proto: Protocol,
    flags: u8,
    acl_gen: u64,
    fw_gen: u64,
    c: Clock,
) -> Watch {
    match (key, first_phase(proto, flags)) {
        (Some(k), Some(phase)) => if w.flows.dom().contains(k) {
            let f = w.flows[k];
            Watch {
                flows: w.flows.insert(
                    k,
                    TrackedFlow {
                        phase: rejoined_phase(f.phase, phase),
                        last_seen: c.now,
                        admitted_acl_gen: acl_gen,
                        admitted_fw_gen: fw_gen,
                        ..f
                    },
                ),
                ..w
            }
        } else {
            Watch {
                shards: watched(w.shards, k, due_at(c.now_ms, phase), 1),
                flows: w.flows.insert(
                    k,
                    TrackedFlow {
                        phase,
                        last_seen: c.now,
                        admitted_acl_gen: acl_gen,
                        admitted_fw_gen: fw_gen,
                        seq: 1,
                        heap_ms: c.now_ms,
                    },
                ),
            }
        },
        _ => w,
    }
}

/// What the access-control list is asked.
pub open spec fn subject_of(
    p: InForce,
    peer: PeerSeen,
    l4: ResolvedL4,
    direction: Direction,
    src: u32,
    dst: u32,
) -> Subject {
    Subject {
        protocol: l4.protocol,
        local: PartyView {
            endpoint: p.local.endpoint_hex@,
            tags: texts(p.local.tags@),
            network: p.local.network@,
            ip: Some(p.local.ip),
        },
        peer: PartyView {
            endpoint: peer.hex,
            tags: peer.tags,
            network: p.local.network@,
            ip: Some(
                if direction is Outbound {
                    dst
                } else {
                    src
                },
            ),
        },
        dst_port: l4.dst_port,
        direction,
        posture_ok: p.posture_ok,
    }
}

/// The access-control list lets the packet pass. While the control plane is out of
/// reach, a network that has no rules and is open lets everything pass.
pub open spec fn acl_lets(p: InForce, s: Subject) -> bool {
    decision(p.bundle, s) is Allow || (p.stale && ruleless(p.bundle) && p.bundle.default_action
        is Allow)
}

/// The built-in default of the firewall: outbound passes; inbound passes from a known
/// peer, and without one only as an ICMP echo request.
pub open spec fn passes_by_default(s: FwSubject) -> bool {
    s.direction is Outbound || s.peer_hex.len() > 0 || (s.l4.protocol is Icmp && s.l4.icmp_type
        == Some(8u8))
}

/// What an enabled firewall says.
pub open spec fn fw_says(fw: FwSet, s: FwSubject) -> PolicyVerdict {
    match compiled_say(fw.rules@, s) {
        Some(v) => v,
        None => if passes_by_default(s) {
            PolicyVerdict::Allow
        } else {
            PolicyVerdict::Deny
        },
    }
}

pub open spec fn fw_subject(peer: PeerSeen, l4: ResolvedL4, direction: Direction) -> FwSubject {
    FwSubject {
        direction,
        l4,
        peer_hex: peer.hex,
        peer_hostname: peer.hostname,
        peer_network: peer.network,
    }
}

/// The verdict of the whole policy on a packet that no established flow lets pass.
pub open spec fn policy_says(
    p: InForce,
    peer: PeerSeen,
    l4: ResolvedL4,
    direction: Direction,
    src: u32,
    dst: u32,
) -> PolicyVerdict {
    if !acl_lets(p, subject_of(p, peer, l4, direction, src, dst)) {
        PolicyVerdict::Deny
    } else if p.fw.set.enabled {
        fw_says(p.fw.set, fw_subject(peer, l4, direction))
    } else {
        PolicyVerdict::Allow
    }
}

/// The full evaluation of a packet with known facts and addresses.
pub open spec fn evaluated(
    m: Memory,
    p: InForce,
    peer: PeerSeen,
    l4: ResolvedL4,
    direction: Direction,
    src: u32,
    dst: u32,
    c: Clock,
) -> (Memory, PolicyVerdict) {
    let key = key_of(peer, l4, src, dst);
    let verdict = policy_says(p, peer, l4, direction, src, dst);
    if !acl_lets(p, subject_of(p, peer, l4, direction, src, dst)) {
        (
            Memory {
                denies: logged(m.denies, denial(peer.hex, l4.dst_port, l4.protocol, c.unix)),
                ..m
            },
            verdict,
        )
    } else {
        let counters = if p.fw.set.enabled {
            counted(m.counters, verdict)
        } else {
            m.counters
        };
        if verdict is Allow {
            (
                Memory {
                    counters,
                    watch: opened(
                        m.watch,
                        key,
                        l4.protocol,
                        l4.flags(),
                        p.generation,
                        p.fw.generation,
                        c,
                    ),
                    ..m
                },
                verdict,
            )
        } else {
            (Memory { counters, ..m }, verdict)
        }
    }
}

/// What the runtime decides on a packet, and what it remembers afterwards.
pub open spec fn judged(
    m: Memory,
    p: InForce,
    meta: PacketMeta,
    direction: Direction,
    peer: PeerSeen,
    c: Clock,
) -> (Memory, PolicyVerdict) {
    let m1 = Memory { frags: remembered(m.frags, meta, c.now), ..m };
    match (facts_of(m.frags, meta, c.now), meta.src_v4, meta.dst_v4) {
        (Some(l4), Some(src), Some(dst)) => {
            let key = key_of(peer, l4, src, dst);
            if established(m1.watch.flows, key, p, c.now) {
                (
                    Memory {
                        watch: refreshed(
                            m1.watch,
                            key->Some_0,
                            direction is Inbound,
                            l4.flags(),
                            c,
                        ),
                        ..m1
                    },
                    PolicyVerdict::Allow,
                )
            } else {
                let m2 = Memory { watch: without_lapsed(m1.watch, key, c.now), ..m1 };
                evaluated(m2, p, peer, l4, direction, src, dst, c)
            }
        },
        _ => (m1, PolicyVerdict::Deny),
    }
}

/// No flow was let in by an access-control list later than `generation`.
pub open spec fn none_later(flows: Map<CanonKey, TrackedFlow>, generation: u64) -> bool {
    forall|k: CanonKey| #[trigger]
        flows.dom().contains(k) ==> flows[k].admitted_acl_gen <= generation
}

pub proof fn lemma_judged_none_later(
    m: Memory,
    p: InForce,
    meta: PacketMeta,
    direction: Direction,
    peer: PeerSeen,
    c: Clock,
)
    requires
        none_later(m.watch.flows, p.generation),
    ensures
        none_later(judged(m, p, meta, direction, peer, c).0.watch.flows, p.generation),
{
    if let (Some(l4), Some(src), Some(dst)) = (
        facts_of(m.frags, meta, c.now),
        meta.src_v4,
        meta.dst_v4,
    ) {
        let key = key_of(peer, l4, src, dst);
        if established(m.watch.flows, key, p, c.now) {
            let k = key->Some_0;
            let r = touched(m.watch.flows[k], direction is Inbound, l4.flags(), c.now, c.now_ms);
            let shards = if r.1 {
                watched(m.watch.shards, k, due_at(c.now_ms, r.0.phase), r.0.seq)
            } else {
                m.watch.shards
            };
            lemma_reaped_within(
                shards[shard_of(k)],
                m.watch.flows.insert(k, r.0),
                REAP_BUDGET as nat,
                c.now_ms,
                c.now,
            );
        }
    }
}

} // verus!
