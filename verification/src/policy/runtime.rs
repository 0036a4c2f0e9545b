//! The packet-policy runtime: one connection-tracking table, one fragment table, one
//! verdict for both directions. Every publication has a generation of its own, and a
//! flow that another generation let in is judged anew.

use super::acl::{CompiledAcl, Packet, Party};
use super::canon::canon_key;
use super::denylog::{AclDenyRecord, DenyLog};
use super::firewall::{fw_verdict, FwPacket, PolicyVerdict};
use super::flows::{
    flows_of, is_lapsed, no_flows, touch, track_clear, track_get, track_insert, track_len,
    track_new, track_remove, ttl_of, CanonKey, Phase, TcpPhase, TrackedFlow, ACK, FIN, RST, SYN,
};
use super::fragments::{FragEntry, FragmentTable};
use super::judge::{
    acl_lets, due_at, established, first_phase, fw_says, fw_subject, judged,
    lemma_judged_none_later, none_later, opened, passes_by_default, refreshed, rejoined_phase,
    subject_of, without_lapsed, Clock, InForce, Memory, PeerFacts,
};
use super::meta::{FragKey, PacketMeta, ResolvedL4};
use super::rules::{Action, Direction, PolicyBundle, Protocol, SelfIdentity};
use super::slots::{alike, published, FwCounters, FwSet, FwSlot, FwSource, Slots};
use super::wheel::{
    law_sweep_ends_lapsed_only, lemma_reaped_within, no_nodes, swept, ExpiryWheel, Watch,
    REAP_BUDGET,
};
use crate::table::Table;
use vstd::prelude::*;

verus! {

pub struct PolicyRuntime {
    pub generation: u64,
    pub acl: CompiledAcl,
    pub acl_source: PolicyBundle,
    pub fw_source: Table<u128, FwSource>,
    pub local: SelfIdentity,
    pub src_posture_ok: bool,
    pub stale: bool,
    pub conntrack: dashmap::DashMap<CanonKey, TrackedFlow>,
    pub expiry: ExpiryWheel,
    pub fragments: FragmentTable,
    pub deny_log: DenyLog,
    pub slots: Slots,
}

/// The phase in which a flow starts; none for protocols that are not tracked.
fn opening_phase(proto: Protocol, flags: u8) -> (p: Option<Phase>)
    ensures
        p == first_phase(proto, flags),
{
    match proto {
        Protocol::Tcp => {
            if flags & SYN != 0 && flags & ACK == 0 {
                Some(Phase::Tcp(TcpPhase::SynSent))
            } else if flags & FIN != 0 || flags & RST != 0 {
                Some(Phase::Tcp(TcpPhase::TimeWait))
            } else {
                Some(Phase::Tcp(TcpPhase::Established))
            }
        },
        Protocol::Udp => Some(Phase::Udp),
        Protocol::Icmp => Some(Phase::Icmp),
        Protocol::Icmpv6 => Some(Phase::Icmp),
        Protocol::Any => None,
        Protocol::Other(_) => None,
    }
}

/// The built-in default of the firewall.
fn default_passes(p: &FwPacket) -> (b: bool)
    ensures
        b == passes_by_default(p.seen()),
{
    match p.direction {
        Direction::Outbound => true,
        Direction::Inbound => p.peer_hex.unicode_len() > 0 || (matches!(
            p.l4.protocol,
            Protocol::Icmp
        ) && matches!(p.l4.icmp_type, Some(8))),
    }
}

fn due(now_ms: u64, phase: Phase) -> (t: u64)
    ensures
        t == due_at(now_ms, phase),
{
    now_ms.saturating_add(ttl_of(phase) / 1_000_000)
}

impl PolicyRuntime {
    pub open spec fn wf(&self) -> bool {
        &&& self.acl.stands_for(self.acl_source)
        &&& self.fw_source.wf()
        &&& self.expiry.wf()
        &&& self.fragments.wf()
        &&& self.deny_log.wf()
        &&& self.slots.wf()
        &&& forall|n: u128| #[trigger]
            self.fw_source@.dom().contains(n) ==> super::slots::has_slot(self.slots.all@, n)
        &&& forall|i: int|
            0 <= i < self.slots.all@.len() && self.fw_source@.dom().contains(
                (#[trigger] self.slots.all@[i]).network,
            ) ==> self.slots.all@[i].carries(
                self.fw_source@[self.slots.all@[i].network],
                self.generation,
            )
        &&& forall|i: int|
            0 <= i < self.slots.all@.len() ==> (#[trigger] self.slots.all@[i]).snapshot.generation
                <= self.generation
        &&& none_later(flows_of(self.conntrack), self.generation)
    }

    pub open spec fn watch(&self) -> Watch {
        Watch { shards: self.expiry@, flows: flows_of(self.conntrack) }
    }

    /// The policy that is in force for the network of slot `at`.
    pub open spec fn in_force(&self, at: int) -> InForce {
        InForce {
            generation: self.generation,
            bundle: self.acl_source,
            local: self.local,
            posture_ok: self.src_posture_ok,
            stale: self.stale,
            fw: self.slots.all@[at].snapshot,
        }
    }

    /// What packets of the network of slot `at` change.
    pub open spec fn memory(&self, at: int) -> Memory {
        Memory {
            watch: self.watch(),
            frags: self.fragments@,
            denies: self.deny_log@,
            counters: self.slots.all@[at].counters,
        }
    }

    /// The policy, but for the counters of slot `at`, is as in `other`.
    pub open spec fn same_policy(&self, other: Self, at: int) -> bool {
        &&& self.generation == other.generation
        &&& self.acl == other.acl
        &&& self.acl_source == other.acl_source
        &&& self.fw_source == other.fw_source
        &&& self.local == other.local
        &&& self.src_posture_ok == other.src_posture_ok
        &&& self.stale == other.stale
        &&& self.slots.all@ == other.slots.all@.update(
            at,
            FwSlot { counters: self.slots.all@[at].counters, ..other.slots.all@[at] },
        )
        &&& self.slots.places == other.slots.places
    }

    /// Whether an established flow lets the packet pass; if so, the flow is refreshed.
    fn conntrack_allows(
        &mut self,
        fw_gen: u64,
        key: CanonKey,
        direction: Direction,
        tcp_flags: u8,
        c: Clock,
        Ghost(at): Ghost<int>,
    ) -> (b: bool)
        requires
            old(self).wf(),
            0 <= at < old(self).slots.all@.len(),
            fw_gen == old(self).slots.all@[at].snapshot.generation,
        ensures
            final(self).wf(),
            final(self).same_policy(*old(self), at),
            final(self).fragments == old(self).fragments,
            final(self).deny_log == old(self).deny_log,
            final(self).slots == old(self).slots,
            b == established(
                flows_of(old(self).conntrack),
                Some(key),
                old(self).in_force(at),
                c.now,
            ),
            b ==> final(self).watch() == refreshed(
                old(self).watch(),
                key,
                direction is Inbound,
                tcp_flags,
                c,
            ),
            !b ==> final(self).watch() == without_lapsed(old(self).watch(), Some(key), c.now),
    {
        proof {
            assert(self.slots.all@ =~= self.slots.all@.update(at, self.slots.all@[at]));
        }
        match track_get(&self.conntrack, &key) {
            None => false,
            Some(f) => {
                if is_lapsed(&f, c.now) {
                    track_remove(&mut self.conntrack, &key);
                    return false;
                }
                if f.admitted_acl_gen != self.generation || f.admitted_fw_gen != fw_gen {
                    return false;
                }
                let inbound = matches!(direction, Direction::Inbound);
                let (g, renew) = touch(&f, inbound, tcp_flags, c.now, c.now_ms);
                track_insert(&mut self.conntrack, key, g);
                if renew {
                    self.expiry.push(key, due(c.now_ms, g.phase), g.seq);
                }
                let shard: usize = ExpiryWheel::shard(&key);
                proof {
                    lemma_reaped_within(
                        self.expiry@[shard as int],
                        flows_of(self.conntrack),
                        REAP_BUDGET as nat,
                        c.now_ms,
                        c.now,
                    );
                }
                self.expiry.reap_shard(shard, REAP_BUDGET, c.now_ms, c.now, &mut self.conntrack);
                true
            },
        }
    }

    /// Tracks a flow that policy lets in.
    fn open_flow(
        &mut self,
        fw_gen: u64,
        key: CanonKey,
        proto: Protocol,
        tcp_flags: u8,
        c: Clock,
    )
        requires
            old(self).wf(),
        ensures
            final(self).wf(),
            final(self).generation == old(self).generation,
            final(self).acl == old(self).acl,
            final(self).acl_source == old(self).acl_source,
            final(self).fw_source == old(self).fw_source,
            final(self).local == old(self).local,
            final(self).src_posture_ok == old(self).src_posture_ok,
            final(self).stale == old(self).stale,
            final(self).slots == old(self).slots,
            final(self).fragments == old(self).fragments,
            final(self).deny_log == old(self).deny_log,
            final(self).watch() == opened(
                old(self).watch(),
                Some(key),
                proto,
                tcp_flags,
                old(self).generation,
                fw_gen,
                c,
            ),
    {
        let phase = match opening_phase(proto, tcp_flags) {
            Some(p) => p,
            None => {
                return;
            },
        };
        match track_get(&self.conntrack, &key) {
            Some(f) => {
                let closing = matches!(phase, Phase::Tcp(TcpPhase::TimeWait));
                let opening = matches!(f.phase, Phase::Tcp(TcpPhase::SynSent)) && matches!(
                    phase,
                    Phase::Tcp(TcpPhase::Established)
                );
                let next = if closing || opening {
                    phase
                } else {
                    f.phase
                };
                assert(next == rejoined_phase(f.phase, phase));
                track_insert(
                    &mut self.conntrack,
                    key,
                    TrackedFlow {
                        phase: next,
                        last_seen: c.now,
                        admitted_acl_gen: self.generation,
                        admitted_fw_gen: fw_gen,
                        ..f
                    },
                );
            },
            None => {
                self.expiry.push(key, due(c.now_ms, phase), 1);
                track_insert(
                    &mut self.conntrack,
                    key,
                    TrackedFlow {
                        phase,
                        last_seen: c.now,
                        admitted_acl_gen: self.generation,
                        admitted_fw_gen: fw_gen,
                        seq: 1,
                        heap_ms: c.now_ms,
                    },
                );
            },
        }
    }

    /// Whether the access-control list lets the packet pass.
    fn acl_passes(
        &self,
        l4: &ResolvedL4,
        direction: Direction,
        peer: &PeerFacts,
        src: u32,
        dst: u32,
        Ghost(at): Ghost<int>,
    ) -> (b: bool)
        requires
            self.wf(),
        ensures
            b == acl_lets(
                self.in_force(at),
                subject_of(self.in_force(at), peer.seen(), *l4, direction, src, dst),
            ),
    {
        let peer_ip: u32 = match direction {
            Direction::Outbound => dst,
            Direction::Inbound => src,
        };
        let packet = Packet {
            protocol: l4.protocol,
            local: Party {
                endpoint: self.local.endpoint_hex.as_str(),
                tags: self.local.tags.as_slice(),
                network: self.local.network.as_str(),
                ip: Some(self.local.ip),
            },
            peer: Party {
                endpoint: peer.hex,
                tags: peer.tags,
                network: self.local.network.as_str(),
                ip: Some(peer_ip),
            },
            dst_port: l4.dst_port,
            direction,
            posture_ok: self.src_posture_ok,
        };
        proof {
            assert(packet.seen() == subject_of(
                self.in_force(at),
                peer.seen(),
                *l4,
                direction,
                src,
                dst,
            ));
            assert(self.acl.default_action == self.acl_source.default_action);
        }
        let action = self.acl.verdict(&packet, Ghost(self.acl_source));
        if matches!(action, Action::Allow) {
            return true;
        }
        assert(self.acl.stands_for(self.acl_source));
        self.stale && self.acl.is_empty_open() && self.acl.default_is_allow()
    }

    /// What the firewall of a slot says; nothing where it is not enabled.
    fn firewall_says(
        &self,
        slot: usize,
        l4: &ResolvedL4,
        direction: Direction,
        peer: &PeerFacts,
    ) -> (v: Option<PolicyVerdict>)
        requires
            slot < self.slots.all@.len(),
        ensures
            v == (if self.slots.all@[slot as int].snapshot.set.enabled {
                Some(
                    fw_says(
                        self.slots.all@[slot as int].snapshot.set,
                        fw_subject(peer.seen(), *l4, direction),
                    ),
                )
            } else {
                None
            }),
    {
        let set = &self.slots.all[slot].snapshot.set;
        if !set.enabled {
            return None;
        }
        let packet = FwPacket {
            direction,
            l4: *l4,
            peer_hex: peer.hex,
            peer_hostname: peer.hostname,
            peer_network: peer.network,
        };
        proof {
            assert(packet.seen() == fw_subject(peer.seen(), *l4, direction));
        }
        match fw_verdict(set.rules.as_slice(), &packet) {
            Some(v) => Some(v),
            None => {
                if default_passes(&packet) {
                    Some(PolicyVerdict::Allow)
                } else {
                    Some(PolicyVerdict::Deny)
                }
            },
        }
    }

    /// Adds a verdict to the counters of a slot.
    fn count(&mut self, slot: usize, v: PolicyVerdict)
        requires
            old(self).wf(),
            slot < old(self).slots.all@.len(),
        ensures
            final(self).wf(),
            final(self).same_policy(*old(self), slot as int),
            final(self).conntrack == old(self).conntrack,
            final(self).expiry == old(self).expiry,
            final(self).fragments == old(self).fragments,
            final(self).deny_log == old(self).deny_log,
            final(self).slots.all@[slot as int].counters == super::slots::counted(
                old(self).slots.all@[slot as int].counters,
                v,
            ),
    {
        let ghost was = self.slots.all@;
        let s = self.slots.all.remove(slot);
        let counters = s.counters.count(v);
        self.slots.all.insert(
            slot,
            FwSlot { network: s.network, snapshot: s.snapshot, counters },
        );
        proof {
            let now = self.slots.all@;
            let at = slot as int;
            assert(now =~= was.update(at, FwSlot { counters: now[at].counters, ..was[at] }));
            assert forall|n: u128| #[trigger]
                self.fw_source@.dom().contains(n) implies super::slots::has_slot(now, n) by {
                let i = choose|i: int| 0 <= i < was.len() && (#[trigger] was[i]).network == n;
                assert(now[i].network == n);
            }
        }
    }

    /// The verdict on a packet of the network of `slot`.
    pub fn check(
        &mut self,
        meta: &PacketMeta,
        direction: Direction,
        peer: &PeerFacts,
        slot: usize,
        c: Clock,
    ) -> (v: PolicyVerdict)
        requires
            old(self).wf(),
            slot < old(self).slots.all@.len(),
        ensures
            final(self).wf(),
            final(self).same_policy(*old(self), slot as int),
            (final(self).memory(slot as int), v) == judged(
                old(self).memory(slot as int),
                old(self).in_force(slot as int),
                *meta,
                direction,
                peer.seen(),
                c,
            ),
    {
        let ghost at = slot as int;
        proof {
            assert(self.slots.all@ =~= self.slots.all@.update(at, self.slots.all@[at]));
        }
        proof {
            lemma_judged_none_later(
                self.memory(at),
                self.in_force(at),
                *meta,
                direction,
                peer.seen(),
                c,
            );
        }
        let l4 = if meta.is_later_fragment() {
            match self.fragments.lookup_meta(meta, c.now) {
                Some(hit) => hit,
                None => {
                    return PolicyVerdict::Deny;
                },
            }
        } else {
            if meta.is_fragment() {
                self.fragments.remember_meta(meta, c.now);
            }
            match ResolvedL4::from_transport(meta.transport) {
                Some(l4) => l4,
                None => {
                    return PolicyVerdict::Deny;
                },
            }
        };
        let (src, dst): (u32, u32) = match (meta.src_v4, meta.dst_v4) {
            (Some(s), Some(d)) => (s, d),
            _ => {
                return PolicyVerdict::Deny;
            },
        };
        let fw_gen: u64 = self.slots.all[slot].snapshot.generation;
        let flags: u8 = match l4.tcp_flags {
            Some(f) => f,
            None => 0,
        };
        let net: u128 = match peer.network {
            Some(n) => n,
            None => 0,
        };
        let key = canon_key(net, l4.protocol, src, dst, l4.src_port, l4.dst_port);
        let ghost p0 = self.in_force(at);
        if let Some(k) = key {
            if self.conntrack_allows(fw_gen, k, direction, flags, c, Ghost(at)) {
                return PolicyVerdict::Allow;
            }
        }
        assert(self.in_force(at) == p0);
        if !self.acl_passes(&l4, direction, peer, src, dst, Ghost(at)) {
            self.deny_log.record_deny(peer.hex, l4.dst_port, l4.protocol, c.unix);
            return PolicyVerdict::Deny;
        }
        if let Some(v) = self.firewall_says(slot, &l4, direction, peer) {
            self.count(slot, v);
            if !matches!(v, PolicyVerdict::Allow) {
                return v;
            }
        }
        if let Some(k) = key {
            self.open_flow(fw_gen, k, l4.protocol, flags, c);
        }
        PolicyVerdict::Allow
    }

    /// The verdict together with the generations of the access-control list and of the
    /// firewall that gave it.
    pub fn check_with_generation(
        &mut self,
        meta: &PacketMeta,
        direction: Direction,
        peer: &PeerFacts,
        slot: usize,
        c: Clock,
    ) -> (r: (PolicyVerdict, u64, u64))
        requires
            old(self).wf(),
            slot < old(self).slots.all@.len(),
        ensures
            final(self).wf(),
            final(self).same_policy(*old(self), slot as int),
            (final(self).memory(slot as int), r.0) == judged(
                old(self).memory(slot as int),
                old(self).in_force(slot as int),
                *meta,
                direction,
                peer.seen(),
                c,
            ),
            r.1 == old(self).generation,
            r.2 == old(self).slots.all@[slot as int].snapshot.generation,
    {
        let acl_gen: u64 = self.generation;
        let fw_gen: u64 = self.slots.all[slot].snapshot.generation;
        let v = self.check(meta, direction, peer, slot, c);
        (v, acl_gen, fw_gen)
    }

    /// A runtime with its first policy, of generation one.
    pub fn bootstrap(
        bundle: PolicyBundle,
        fw: Table<u128, FwSource>,
        local: SelfIdentity,
        src_posture_ok: bool,
        stale: bool,
    ) -> (rt: Self)
        requires
            fw.wf(),
        ensures
            rt.wf(),
            rt.generation == 1,
            rt.acl_source == bundle,
            rt.fw_source == fw,
            rt.local == local,
            rt.src_posture_ok == src_posture_ok,
            rt.stale == stale,
            rt.watch() == (Watch { shards: no_nodes(), flows: no_flows() }),
            rt.fragments@ == Map::<FragKey, FragEntry>::empty(),
            rt.deny_log@.len() == 0,
            published(Seq::empty(), rt.slots.all@, fw@, 1),
    {
        let mut slots = Slots::new();
        slots.publish(&fw, 1);
        let acl = CompiledAcl::compile(&bundle);
        PolicyRuntime {
            generation: 1,
            acl,
            acl_source: bundle,
            fw_source: fw,
            local,
            src_posture_ok,
            stale,
            conntrack: track_new(),
            expiry: ExpiryWheel::new(),
            fragments: FragmentTable::new(),
            deny_log: DenyLog::new(),
            slots,
        }
    }

    /// What every publication does, apart from the policy that it installs: the next
    /// generation, the same flows, no expiry nodes, no fragments, the same denials, and
    /// every firewall installed anew.
    pub open spec fn republished(&self, before: Self) -> bool {
        &&& self.wf()
        &&& self.generation == before.generation + 1
        &&& self.expiry@ == no_nodes()
        &&& self.fragments@ == Map::<FragKey, FragEntry>::empty()
        &&& self.deny_log == before.deny_log
        &&& published(before.slots.all@, self.slots.all@, self.fw_source@, self.generation)
    }

    /// Installs all firewalls again under the next generation.
    fn install(&mut self)
        requires
            old(self).expiry.wf(),
            old(self).fw_source.wf(),
            old(self).fragments.wf(),
            old(self).deny_log.wf(),
            old(self).slots.wf(),
            old(self).acl.stands_for(old(self).acl_source),
            old(self).generation < u64::MAX,
            none_later(flows_of(old(self).conntrack), old(self).generation),
            forall|i: int|
                0 <= i < old(self).slots.all@.len() ==> (
                #[trigger] old(self).slots.all@[i]).snapshot.generation <= old(self).generation,
        ensures
            final(self).republished(*old(self)),
            final(self).acl == old(self).acl,
            final(self).acl_source == old(self).acl_source,
            final(self).fw_source == old(self).fw_source,
            final(self).local == old(self).local,
            final(self).src_posture_ok == old(self).src_posture_ok,
            final(self).stale == old(self).stale,
            final(self).conntrack == old(self).conntrack,
    {
        self.generation = self.generation + 1;
        let ghost was = self.slots.all@;
        self.slots.publish(&self.fw_source, self.generation);
        self.expiry = ExpiryWheel::new();
        self.fragments = FragmentTable::new();
        proof {
            let new = self.slots.all@;
            assert forall|i: int| 0 <= i < new.len() implies (
            #[trigger] new[i]).snapshot.generation <= self.generation by {
                if self.fw_source@.dom().contains(new[i].network) {
                    assert(new[i].carries(self.fw_source@[new[i].network], self.generation));
                } else {
                    assert(new[i] == was[i]);
                }
            }
        }
    }

    /// Publishes an access-control list. Returns its generation.
    pub fn publish_acl(
        &mut self,
        bundle: PolicyBundle,
        local: SelfIdentity,
        src_posture_ok: bool,
        stale: bool,
    ) -> (g: u64)
        requires
            old(self).wf(),
            old(self).generation < u64::MAX,
        ensures
            final(self).republished(*old(self)),
            g == final(self).generation,
            final(self).acl_source == bundle,
            final(self).fw_source == old(self).fw_source,
            final(self).local == local,
            final(self).src_posture_ok == src_posture_ok,
            final(self).stale == stale,
            final(self).conntrack == old(self).conntrack,
    {
        self.acl = CompiledAcl::compile(&bundle);
        self.acl_source = bundle;
        self.local = local;
        self.src_posture_ok = src_posture_ok;
        self.stale = stale;
        self.install();
        self.generation
    }

    /// Publishes the firewall of one network. Returns its generation.
    pub fn publish_firewall(&mut self, network: u128, src: FwSource) -> (g: u64)
        requires
            old(self).wf(),
            old(self).generation < u64::MAX,
        ensures
            final(self).republished(*old(self)),
            g == final(self).generation,
            final(self).fw_source@ == old(self).fw_source@.insert(network, src),
            final(self).acl_source == old(self).acl_source,
            final(self).local == old(self).local,
            final(self).src_posture_ok == old(self).src_posture_ok,
            final(self).stale == old(self).stale,
            final(self).conntrack == old(self).conntrack,
    {
        self.fw_source.insert(network, src);
        self.install();
        self.generation
    }

    /// Forgets all flows, under a new generation of the same policy. Returns the
    /// generation.
    pub fn invalidate(&mut self) -> (g: u64)
        requires
            old(self).wf(),
            old(self).generation < u64::MAX,
        ensures
            final(self).republished(*old(self)),
            g == final(self).generation,
            final(self).fw_source == old(self).fw_source,
            final(self).acl_source == old(self).acl_source,
            final(self).local == old(self).local,
            final(self).src_posture_ok == old(self).src_posture_ok,
            final(self).stale == old(self).stale,
            flows_of(final(self).conntrack) == no_flows(),
    {
        track_clear(&mut self.conntrack);
        self.install();
        self.generation
    }

    /// The place of a network's slot; it stays the same for good. A network that is not
    /// known gets a slot with a firewall that is not enabled.
    pub fn slot_for_network(&mut self, network: u128) -> (at: usize)
        requires
            old(self).wf(),
        ensures
            final(self).wf(),
            at < final(self).slots.all@.len(),
            final(self).slots.all@[at as int].network == network,
            super::slots::has_slot(old(self).slots.all@, network) ==> *final(self) == *old(self),
            !super::slots::has_slot(old(self).slots.all@, network) ==> final(self).slots.all@
                == old(self).slots.all@.push(final(self).slots.all@[at as int]),
            !super::slots::has_slot(old(self).slots.all@, network) ==> at == old(
                self,
            ).slots.all@.len(),
            !super::slots::has_slot(old(self).slots.all@, network) ==> final(
                self
            ).slots.all@[at as int].is_new(),
            (PolicyRuntime { slots: old(self).slots, ..*final(self) }) == *old(self),
    {
        let ghost was = self.slots.all@;
        let at: usize = self.slots.slot_for_network(network);
        proof {
            let new = self.slots.all@;
            assert forall|n: u128| #[trigger]
                self.fw_source@.dom().contains(n) implies super::slots::has_slot(new, n) by {
                let i = choose|i: int| 0 <= i < was.len() && (#[trigger] was[i]).network == n;
                assert(new[i].network == n);
            }
            assert forall|i: int| 0 <= i < new.len() implies (
            #[trigger] new[i]).snapshot.generation <= self.generation by {
                if i < was.len() {
                    assert(new[i] == was[i]);
                }
            }
        }
        at
    }

    /// One tick of the background sweeper. Fragments that are no longer fresh go too.
    pub fn sweep(&mut self, c: Clock)
        requires
            old(self).wf(),
        ensures
            final(self).wf(),
            final(self).watch() == swept(old(self).watch(), c.now_ms, c.now),
            forall|meta: PacketMeta|
                super::fragments::recalled(final(self).fragments@, meta, c.now)
                    == #[trigger] super::fragments::recalled(old(self).fragments@, meta, c.now),
            (PolicyRuntime {
                conntrack: old(self).conntrack,
                expiry: old(self).expiry,
                fragments: old(self).fragments,
                ..*final(self)
            }) == *old(self),
    {
        let ghost was = self.watch();
        self.expiry.sweep(c.now_ms, c.now, &mut self.conntrack);
        proof {
            law_sweep_ends_lapsed_only(was, c.now_ms, c.now, arbitrary());
            assert(self.watch().flows == swept(was, c.now_ms, c.now).flows);
            assert(none_later(flows_of(self.conntrack), self.generation));
        }
        self.fragments.prune(c.now);
    }

    pub fn generation(&self) -> (g: u64)
        ensures
            g == self.generation,
    {
        self.generation
    }

    /// The firewall set of a network; its slot is made where it has none yet.
    pub fn fw_for_network(&mut self, network: u128) -> (s: FwSet)
        requires
            old(self).wf(),
        ensures
            final(self).wf(),
            (PolicyRuntime { slots: old(self).slots, ..*final(self) }) == *old(self),
            forall|i: int|
                0 <= i < old(self).slots.all@.len() ==> final(self).slots.all@[i] == old(
                    self,
                ).slots.all@[i],
            final(self).says_of(network, s),
    {
        let at: usize = self.slot_for_network(network);
        let s = self.slots.all[at].snapshot.set.copy();
        assert(self.says_of_at(network, s, at as int));
        s
    }

    pub open spec fn says_of_at(&self, network: u128, s: FwSet, i: int) -> bool {
        &&& 0 <= i < self.slots.all@.len()
        &&& self.slots.all@[i].network == network
        &&& s.enabled == self.slots.all@[i].snapshot.set.enabled
        &&& s.rules@.len() == self.slots.all@[i].snapshot.set.rules@.len()
        &&& forall|j: int|
            0 <= j < s.rules@.len() ==> alike(
                #[trigger] s.rules@[j],
                self.slots.all@[i].snapshot.set.rules@[j],
            )
    }

    /// The set has the contents of the network's slot.
    pub open spec fn says_of(&self, network: u128, s: FwSet) -> bool {
        exists|i: int| #[trigger] self.says_of_at(network, s, i)
    }

    /// The firewall counters of a network; its slot is made where it has none yet.
    pub fn fw_counters_for(&mut self, network: u128) -> (n: FwCounters)
        requires
            old(self).wf(),
        ensures
            final(self).wf(),
            (PolicyRuntime { slots: old(self).slots, ..*final(self) }) == *old(self),
            forall|i: int|
                0 <= i < old(self).slots.all@.len() ==> final(self).slots.all@[i] == old(
                    self,
                ).slots.all@[i],
            exists|i: int|
                0 <= i < final(self).slots.all@.len() && (
                #[trigger] final(self).slots.all@[i]).network == network
                    && final(self).slots.all@[i].counters == n,
    {
        let at: usize = self.slot_for_network(network);
        self.slots.all[at].counters
    }

    /// The recent denials, oldest first.
    pub fn recent_denies(&self) -> (v: Vec<AclDenyRecord>)
        ensures
            v@.map_values(|r: AclDenyRecord| r@) == self.deny_log@,
    {
        self.deny_log.recent()
    }

    /// This node's mesh address.
    pub fn self_ip(&self) -> (ip: u32)
        ensures
            ip == self.local.ip,
    {
        self.local.ip
    }

    /// How many flows are tracked.
    pub fn conntrack_len(&self) -> (n: usize)
        ensures
            n == flows_of(self.conntrack).dom().len(),
    {
        track_len(&self.conntrack)
    }
}

} // verus!
