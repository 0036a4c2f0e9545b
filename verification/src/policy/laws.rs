//! What holds of the policy runtime as a whole.

use super::acl::ruleless;
use super::canon::law_canon_symmetric;
use super::firewall::{
    compiled_say, law_compiled_rules_decide_alike, rules_say, FirewallRule, FwSubject,
    PolicyVerdict,
};
use super::flows::{flows_of, lapsed, touched, ttl, CanonKey, TCP_TIME_WAIT_TTL};
use super::fragments::FRAGMENT_TTL;
use super::judge::{
    acl_lets, due_at, established, facts_of, first_phase, flow_network, judged, key_of, policy_says,
    watched, Clock, InForce, Memory, PeerSeen,
};
use super::meta::{resolved, PacketMeta, ResolvedL4};
use super::rules::{
    applies, decision, denies, Action, Direction, IcmpPolicy, PolicyBundle, Protocol, Subject,
};
use super::runtime::PolicyRuntime;
use super::slots::{published, FwSlot, FwSource};
use super::wheel::{law_reap_ends_lapsed_only, shard_of, REAP_BUDGET};
use vstd::prelude::*;

verus! {

/// A flow that another generation let in, of the access-control list or of the
/// firewall, is judged anew: its next packet gets the verdict of the policy in force.
pub proof fn law_mismatch_revalidates(
    m: Memory,
    p: InForce,
    meta: PacketMeta,
    direction: Direction,
    peer: PeerSeen,
    c: Clock,
    l4: ResolvedL4,
    src: u32,
    dst: u32,
    k: CanonKey,
)
    requires
        facts_of(m.frags, meta, c.now) == Some(l4),
        meta.src_v4 == Some(src),
        meta.dst_v4 == Some(dst),
        key_of(peer, l4, src, dst) == Some(k),
        m.watch.flows.dom().contains(k) ==> m.watch.flows[k].admitted_acl_gen != p.generation
            || m.watch.flows[k].admitted_fw_gen != p.fw.generation,
    ensures
        judged(m, p, meta, direction, peer, c).1 == policy_says(p, peer, l4, direction, src, dst),
{
}

/// A publication takes effect on the next packet of every flow: no flow that was let in
/// before it is established after it.
pub proof fn law_publication_revalidates(
    before: PolicyRuntime,
    after: PolicyRuntime,
    at: int,
    key: Option<CanonKey>,
    now: u64,
)
    requires
        before.wf(),
        after.republished(before),
        flows_of(after.conntrack) == flows_of(before.conntrack),
        0 <= at < after.slots.all@.len(),
    ensures
        !established(flows_of(after.conntrack), key, after.in_force(at), now),
{
    if let Some(k) = key {
        if flows_of(before.conntrack).dom().contains(k) {
            assert(flows_of(before.conntrack)[k].admitted_acl_gen <= before.generation);
        }
    }
}

/// A later fragment of a datagram whose first fragment is not remembered is denied.
pub proof fn law_later_fragment_without_state_denied(
    m: Memory,
    p: InForce,
    meta: PacketMeta,
    direction: Direction,
    peer: PeerSeen,
    c: Clock,
)
    requires
        meta.later(),
        !m.frags.dom().contains(meta.frag_key()->Some_0),
    ensures
        judged(m, p, meta, direction, peer, c).1 == PolicyVerdict::Deny,
{
}

/// A later fragment has the facts of its first fragment for as long as they are kept,
/// whatever the verdict on the first one was.
pub proof fn law_first_fragment_gives_facts(
    m: Memory,
    p: InForce,
    first: PacketMeta,
    later: PacketMeta,
    direction: Direction,
    peer: PeerSeen,
    c: Clock,
    then: u64,
)
    requires
        first.fragmentation is First,
        later.fragmentation is Later,
        first.frag_key() == later.frag_key(),
        then - c.now <= FRAGMENT_TTL,
    ensures
        resolved(first.transport) is Some ==> facts_of(
            judged(m, p, first, direction, peer, c).0.frags,
            later,
            then,
        ) == resolved(first.transport),
{
}

/// A packet without a transport header that policy can read is denied.
pub proof fn law_unreadable_denied(
    m: Memory,
    p: InForce,
    meta: PacketMeta,
    direction: Direction,
    peer: PeerSeen,
    c: Clock,
)
    requires
        !meta.later() && meta.transport is LaterFragment || meta.src_v4 is None || meta.dst_v4
            is None,
    ensures
        judged(m, p, meta, direction, peer, c).1 == PolicyVerdict::Deny,
{
}

/// A deny rule that applies wins over every allow rule, whatever their order.
pub proof fn law_deny_wins(b: PolicyBundle, s: Subject, i: int)
    requires
        0 <= i < b.rules@.len(),
        denies(b.rules@[i]),
        applies(b.rules@[i], s),
        s.protocol == Protocol::Icmp ==> b.icmp_policy == IcmpPolicy::Acl,
    ensures
        decision(b, s) == Action::Deny,
{
}

/// The flow of an accepted packet stays as the packet left it: it was seen just now,
/// under the generations in force.
proof fn lemma_accepted_is_established(
    m: Memory,
    p: InForce,
    meta: PacketMeta,
    direction: Direction,
    peer: PeerSeen,
    c: Clock,
    l4: ResolvedL4,
    src: u32,
    dst: u32,
    k: CanonKey,
)
    requires
        facts_of(m.frags, meta, c.now) == Some(l4),
        meta.src_v4 == Some(src),
        meta.dst_v4 == Some(dst),
        key_of(peer, l4, src, dst) == Some(k),
        first_phase(l4.protocol, l4.flags()) is Some,
        judged(m, p, meta, direction, peer, c).1 == PolicyVerdict::Allow,
    ensures
        ({
            let flows = judged(m, p, meta, direction, peer, c).0.watch.flows;
            &&& flows.dom().contains(k)
            &&& flows[k].last_seen == c.now
            &&& flows[k].admitted_acl_gen == p.generation
            &&& flows[k].admitted_fw_gen == p.fw.generation
        }),
{
    if established(m.watch.flows, Some(k), p, c.now) {
        let r = touched(m.watch.flows[k], direction is Inbound, l4.flags(), c.now, c.now_ms);
        let shards = if r.1 {
            watched(m.watch.shards, k, due_at(c.now_ms, r.0.phase), r.0.seq)
        } else {
            m.watch.shards
        };
        law_reap_ends_lapsed_only(
            shards[shard_of(k)],
            m.watch.flows.insert(k, r.0),
            REAP_BUDGET as nat,
            c.now_ms,
            c.now,
            k,
        );
    }
}

/// Connection tracking is shared by both directions: once a packet of a tracked
/// protocol is accepted, the reply to it is accepted, under the same policy and within
/// the shortest lifetime of a flow, whatever the rules say of the reply itself.
pub proof fn law_reply_accepted(
    m: Memory,
    p: InForce,
    meta: PacketMeta,
    reply: PacketMeta,
    direction: Direction,
    back: Direction,
    peer: PeerSeen,
    peer2: PeerSeen,
    c: Clock,
    c2: Clock,
    l4: ResolvedL4,
    l4b: ResolvedL4,
    src: u32,
    dst: u32,
)
    requires
        facts_of(m.frags, meta, c.now) == Some(l4),
        meta.src_v4 == Some(src),
        meta.dst_v4 == Some(dst),
        !reply.later(),
        resolved(reply.transport) == Some(l4b),
        reply.src_v4 == Some(dst),
        reply.dst_v4 == Some(src),
        l4b.protocol == l4.protocol,
        l4.protocol is Icmp ==> l4b.src_port == l4.src_port && l4b.dst_port == l4.dst_port,
        !(l4.protocol is Icmp) ==> l4b.src_port == l4.dst_port && l4b.dst_port == l4.src_port,
        peer2.network == peer.network,
        first_phase(l4.protocol, l4.flags()) is Some,
        c2.now - c.now <= TCP_TIME_WAIT_TTL,
        judged(m, p, meta, direction, peer, c).1 == PolicyVerdict::Allow,
    ensures
        judged(
            judged(m, p, meta, direction, peer, c).0,
            p,
            reply,
            back,
            peer2,
            c2,
        ).1 == PolicyVerdict::Allow,
{
    let net = flow_network(peer);
    law_canon_symmetric(net, l4.protocol, src, dst, l4.src_port, l4.dst_port);
    let key = key_of(peer, l4, src, dst);
    assert(key is Some);
    assert(key_of(peer2, l4b, dst, src) == key);
    lemma_accepted_is_established(m, p, meta, direction, peer, c, l4, src, dst, key->Some_0);
    let m1 = judged(m, p, meta, direction, peer, c).0;
    assert(ttl(m1.watch.flows[key->Some_0].phase) >= TCP_TIME_WAIT_TTL);
    assert(established(m1.watch.flows, key, p, c2.now));
}

/// Connection tracking is scoped to networks: a packet of one network leaves the live
/// flows of every other network as they are.
pub proof fn law_network_scoped(
    m: Memory,
    p: InForce,
    meta: PacketMeta,
    direction: Direction,
    peer: PeerSeen,
    c: Clock,
    k: CanonKey,
)
    requires
        m.watch.flows.dom().contains(k),
        !lapsed(m.watch.flows[k], c.now),
        k.0 != flow_network(peer),
    ensures
        ({
            let flows = judged(m, p, meta, direction, peer, c).0.watch.flows;
            flows.dom().contains(k) && flows[k] == m.watch.flows[k]
        }),
{
    if let (Some(l4), Some(src), Some(dst)) = (
        facts_of(m.frags, meta, c.now),
        meta.src_v4,
        meta.dst_v4,
    ) {
        let key = key_of(peer, l4, src, dst);
        if established(m.watch.flows, key, p, c.now) {
            let q = key->Some_0;
            let r = touched(m.watch.flows[q], direction is Inbound, l4.flags(), c.now, c.now_ms);
            let shards = if r.1 {
                watched(m.watch.shards, q, due_at(c.now_ms, r.0.phase), r.0.seq)
            } else {
                m.watch.shards
            };
            law_reap_ends_lapsed_only(
                shards[shard_of(q)],
                m.watch.flows.insert(q, r.0),
                REAP_BUDGET as nat,
                c.now_ms,
                c.now,
                k,
            );
        }
    }
}

/// The firewall of one network never affects another: after a publication for network
/// `a`, the rules of network `b` decide as before.
pub proof fn law_firewalls_isolated(
    before: Seq<FwSlot>,
    after: Seq<FwSlot>,
    fw: Map<u128, FwSource>,
    a: u128,
    src: FwSource,
    old_generation: u64,
    generation: u64,
    i: int,
    s: FwSubject,
)
    requires
        0 <= i < before.len(),
        before[i].network != a,
        fw.dom().contains(before[i].network) ==> before[i].carries(
            fw[before[i].network],
            old_generation,
        ),
        published(before, after, fw.insert(a, src), generation),
    ensures
        after[i].network == before[i].network,
        after[i].snapshot.set.enabled == before[i].snapshot.set.enabled,
        compiled_say(after[i].snapshot.set.rules@, s) == compiled_say(
            before[i].snapshot.set.rules@,
            s,
        ),
{
    assert(after[i].network == before[i].network);
    let n = before[i].network;
    if fw.dom().contains(n) {
        assert(fw.insert(a, src).dom().contains(after[i].network));
        assert(after[i].carries(fw.insert(a, src)[n], generation));
        law_compiled_rules_decide_alike(
            before[i].snapshot.set.rules@,
            fw[n].local@ + fw[n].suggested@,
            s,
        );
        law_compiled_rules_decide_alike(
            after[i].snapshot.set.rules@,
            fw[n].local@ + fw[n].suggested@,
            s,
        );
    } else {
        assert(!fw.insert(a, src).dom().contains(after[i].network));
    }
}

/// The firewall of a network decides as its rules do: the first that speaks of the
/// packet, local rules before suggested ones.
pub proof fn law_firewall_follows_rules(rt: PolicyRuntime, i: int, s: FwSubject)
    requires
        rt.wf(),
        0 <= i < rt.slots.all@.len(),
        rt.fw_source@.dom().contains(rt.slots.all@[i].network),
    ensures
        ({
            let src = rt.fw_source@[rt.slots.all@[i].network];
            compiled_say(rt.slots.all@[i].snapshot.set.rules@, s) == rules_say(
                src.local@ + src.suggested@,
                s,
            )
        }),
{
    let src = rt.fw_source@[rt.slots.all@[i].network];
    law_compiled_rules_decide_alike(
        rt.slots.all@[i].snapshot.set.rules@,
        src.local@ + src.suggested@,
        s,
    );
}

/// Local rules come before suggested ones: where a local rule speaks of a packet, no
/// suggestion changes what is said.
pub proof fn law_local_rules_first(
    local: Seq<FirewallRule>,
    suggested: Seq<FirewallRule>,
    s: FwSubject,
)
    ensures
        rules_say(local + suggested, s) == (if rules_say(local, s) is Some {
            rules_say(local, s)
        } else {
            rules_say(suggested, s)
        }),
    decreases local.len(),
{
    if local.len() == 0 {
        assert(local + suggested =~= suggested);
    } else {
        law_local_rules_first(local.drop_first(), suggested, s);
        assert((local + suggested).drop_first() =~= local.drop_first() + suggested);
    }
}

/// An outage of the control plane opens nothing but a network that is open anyway: with
/// rules, or with a default of denying, the access-control list decides as ever.
pub proof fn law_outage_opens_only_open_networks(p: InForce, s: Subject)
    requires
        !ruleless(p.bundle) || p.bundle.default_action is Deny,
    ensures
        acl_lets(p, s) == (decision(p.bundle, s) is Allow),
{
}

} // verus!
