//! How long a flow that was let in is remembered, and which packets belong to it.

use super::canon::canon;
use super::firewall::PolicyVerdict;
use super::flows::{touched, CanonKey, Phase, TcpPhase, TrackedFlow};
use super::fragments::FragEntry;
use super::judge::{judged, key_of, Clock, InForce, Memory, PeerSeen};
use super::meta::{resolved, FragKey, Fragmentation, PacketMeta, Transport};
use super::rules::{Direction, Protocol};
use super::verdicts::carries_ports;
use super::wheel::{
    after_due, crowded, lemma_reap_from_within, lemma_reaped_within, lemma_tidy_keeps_flows,
    reap_at, reap_from, reaped, swept, with_node, ExpiryNode, Watch,
};
use vstd::prelude::*;

verus! {

/// How long a flow that starts with this packet is remembered without traffic: UDP 30 s, TCP
/// 300 s, and 10 s where the packet closes it.
pub open spec fn window(t: Transport) -> int {
    match t {
        Transport::Tcp { src_port: _, dst_port: _, flags } => if flags & 0x02 != 0 && flags & 0x10
            == 0 {
            300_000_000_000
        } else if flags & 0x01 != 0 || flags & 0x04 != 0 {
            10_000_000_000
        } else {
            300_000_000_000
        },
        Transport::Udp { .. } => 30_000_000_000,
        _ => 10_000_000_000,
    }
}

/// The memory without any flow.
pub open spec fn flowless(m: Memory) -> Memory {
    Memory { watch: Watch { flows: Map::empty(), ..m.watch }, ..m }
}

/// Once a packet has passed, the reply to it passes for as long as the flow is remembered,
/// whatever the rules say of the reply; after that it is judged as if there had been no
/// flow. A packet that does not pass opens nothing.
pub proof fn law_reply_window(
    m: Memory,
    p: InForce,
    meta: PacketMeta,
    reply: PacketMeta,
    direction: Direction,
    back: Direction,
    peer: PeerSeen,
    peer2: PeerSeen,
    c: Clock,
    c2: Clock,
    proto: Protocol,
    sport: u16,
    dport: u16,
    src: u32,
    dst: u32,
)
    requires
        m.watch.flows == Map::<CanonKey, TrackedFlow>::empty(),
        carries_ports(meta, proto, sport, dport),
        carries_ports(reply, proto, dport, sport),
        meta.src_v4 == Some(src),
        meta.dst_v4 == Some(dst),
        reply.src_v4 == Some(dst),
        reply.dst_v4 == Some(src),
        peer2.network == peer.network,
    ensures
        ({
            let (n, v) = judged(m, p, meta, direction, peer, c);
            let w = judged(n, p, reply, back, peer2, c2).1;
            let passed = v == PolicyVerdict::Allow && c2.now - c.now <= window(meta.transport);
            &&& passed ==> w == PolicyVerdict::Allow
            &&& !passed ==> w == judged(flowless(n), p, reply, back, peer2, c2).1
        }),
{
    let l4 = resolved(meta.transport)->Some_0;
    let l4b = resolved(reply.transport)->Some_0;
    super::canon::law_canon_symmetric(
        super::judge::flow_network(peer),
        l4.protocol,
        src,
        dst,
        l4.src_port,
        l4.dst_port,
    );
    let (n, v) = judged(m, p, meta, direction, peer, c);
    assert(key_of(peer2, l4b, dst, src) == key_of(peer, l4, src, dst));
    if v != PolicyVerdict::Allow {
        assert(n.watch.flows =~= Map::empty());
    }
}

/// The ping of a peer and its answer, told by their echo id, belong together for 10 s.
pub proof fn law_echo_window(
    m: Memory,
    p: InForce,
    meta: PacketMeta,
    reply: PacketMeta,
    direction: Direction,
    back: Direction,
    peer: PeerSeen,
    peer2: PeerSeen,
    c: Clock,
    c2: Clock,
    ask: u8,
    answer: u8,
    id: u16,
    src: u32,
    dst: u32,
)
    requires
        m.watch.flows == Map::<CanonKey, TrackedFlow>::empty(),
        meta.fragmentation is Whole,
        reply.fragmentation is Whole,
        meta.transport matches Transport::Icmpv4 { type_u8, echo_id, .. } && type_u8 == ask
            && echo_id == Some(id),
        reply.transport matches Transport::Icmpv4 { type_u8, echo_id, .. } && type_u8 == answer
            && echo_id == Some(id),
        meta.src_v4 == Some(src),
        meta.dst_v4 == Some(dst),
        reply.src_v4 == Some(dst),
        reply.dst_v4 == Some(src),
        peer2.network == peer.network,
        judged(m, p, meta, direction, peer, c).1 == PolicyVerdict::Allow,
    ensures
        ({
            let n = judged(m, p, meta, direction, peer, c).0;
            let w = judged(n, p, reply, back, peer2, c2).1;
            &&& c2.now - c.now <= 10_000_000_000 ==> w == PolicyVerdict::Allow
            &&& c2.now - c.now > 10_000_000_000 ==> w == judged(
                flowless(n),
                p,
                reply,
                back,
                peer2,
                c2,
            ).1
        }),
{
    let l4 = resolved(meta.transport)->Some_0;
    let l4b = resolved(reply.transport)->Some_0;
    super::canon::law_canon_symmetric(
        super::judge::flow_network(peer),
        l4.protocol,
        src,
        dst,
        l4.src_port,
        l4.dst_port,
    );
    assert(key_of(peer2, l4b, dst, src) == key_of(peer, l4, src, dst));
}

/// Flows are told apart: two TCP or UDP packets of one flow have the same network, the same
/// protocol, and the same two ends, each with its port, one way or the other.
pub proof fn law_flows_are_told_apart(
    net: u128,
    net2: u128,
    p: Protocol,
    q: Protocol,
    src: u32,
    dst: u32,
    sport: u16,
    dport: u16,
    src2: u32,
    dst2: u32,
    sport2: u16,
    dport2: u16,
)
    requires
        p == Protocol::Tcp || p == Protocol::Udp,
        q == Protocol::Tcp || q == Protocol::Udp,
    ensures
        canon(net, p, src, dst, Some(sport), Some(dport)) is Some,
        canon(net, p, src, dst, Some(sport), Some(dport)) == canon(
            net2,
            q,
            src2,
            dst2,
            Some(sport2),
            Some(dport2),
        ) <==> net == net2 && p == q && ((src == src2 && dst == dst2 && sport == sport2 && dport
            == dport2) || (src == dst2 && dst == src2 && sport == dport2 && dport == sport2)),
{
}

/// The same of pings: by the two ends and the echo id.
pub proof fn law_pings_are_told_apart(
    net: u128,
    src: u32,
    dst: u32,
    id: u16,
    src2: u32,
    dst2: u32,
    id2: u16,
)
    ensures
        canon(net, Protocol::Icmp, src, dst, Some(id), None) == canon(
            net,
            Protocol::Icmp,
            src2,
            dst2,
            Some(id2),
            None,
        ) <==> id == id2 && ((src == src2 && dst == dst2) || (src == dst2 && dst == src2)),
{
}

/// Traffic keeps a flow alive, and a packet that closes it shortens what is left to 10 s:
/// after a packet of an established flow it is remembered from that packet on.
pub proof fn law_traffic_renews_a_flow(
    m: Memory,
    p: InForce,
    meta: PacketMeta,
    direction: Direction,
    peer: PeerSeen,
    c: Clock,
    sport: u16,
    dport: u16,
    flags: u8,
    src: u32,
    dst: u32,
    k: CanonKey,
)
    requires
        meta.fragmentation is Whole,
        meta.transport == (Transport::Tcp { src_port: sport, dst_port: dport, flags }),
        meta.src_v4 == Some(src),
        meta.dst_v4 == Some(dst),
        canon(
            match peer.network {
                Some(n) => n,
                None => 0,
            },
            Protocol::Tcp,
            src,
            dst,
            Some(sport),
            Some(dport),
        ) == Some(k),
        m.watch.flows.dom().contains(k),
        m.watch.flows[k].phase == Phase::Tcp(TcpPhase::Established),
        c.now - m.watch.flows[k].last_seen <= 300_000_000_000,
        m.watch.flows[k].admitted_acl_gen == p.generation,
        m.watch.flows[k].admitted_fw_gen == p.fw.generation,
    ensures
        ({
            let (n, v) = judged(m, p, meta, direction, peer, c);
            &&& v == PolicyVerdict::Allow
            &&& n.watch.flows.dom().contains(k)
            &&& n.watch.flows[k].last_seen == c.now
            &&& n.watch.flows[k].phase == (if flags & 0x01 != 0 || flags & 0x04 != 0 {
                Phase::Tcp(TcpPhase::TimeWait)
            } else {
                Phase::Tcp(TcpPhase::Established)
            })
            &&& n.denies == m.denies
            &&& n.counters == m.counters
        }),
{
    let l4 = resolved(meta.transport)->Some_0;
    let r = super::flows::touched(
        m.watch.flows[k],
        direction is Inbound,
        l4.flags(),
        c.now,
        c.now_ms,
    );
    let shards = if r.1 {
        super::judge::watched(
            m.watch.shards,
            k,
            super::judge::due_at(c.now_ms, r.0.phase),
            r.0.seq,
        )
    } else {
        m.watch.shards
    };
    super::wheel::law_reap_ends_lapsed_only(
        shards[super::wheel::shard_of(k)],
        m.watch.flows.insert(k, r.0),
        super::wheel::REAP_BUDGET as nat,
        c.now_ms,
        c.now,
        k,
    );
}

/// A flow that another policy let in, or that has been idle for more than 300 s, lets
/// nothing pass: the packet is judged as if there were no flow.
pub proof fn law_spent_flow_opens_nothing(
    m: Memory,
    p: InForce,
    meta: PacketMeta,
    direction: Direction,
    peer: PeerSeen,
    c: Clock,
)
    requires
        forall|k: CanonKey| #[trigger]
            m.watch.flows.dom().contains(k) ==> m.watch.flows[k].admitted_acl_gen != p.generation
                || m.watch.flows[k].admitted_fw_gen != p.fw.generation || c.now
                - m.watch.flows[k].last_seen > 300_000_000_000,
    ensures
        judged(m, p, meta, direction, peer, c).1 == judged(
            flowless(m),
            p,
            meta,
            direction,
            peer,
            c,
        ).1,
{
}

/// The later fragments of a datagram are judged by the ports of its first one for 2 s: a
/// later fragment then gets the verdict that a whole packet with that header would, and
/// after that it is denied.
pub proof fn law_fragments_follow_the_first(
    m: Memory,
    n: Memory,
    p: InForce,
    first: PacketMeta,
    later: PacketMeta,
    whole: PacketMeta,
    direction: Direction,
    peer: PeerSeen,
    c: Clock,
    c2: Clock,
    id: u32,
)
    requires
        m.frags == Map::<FragKey, FragEntry>::empty(),
        first.fragmentation == (Fragmentation::First { identification: id }),
        later.fragmentation == (Fragmentation::Later { identification: id }),
        first.src == later.src,
        first.dst == later.dst,
        first.proto == later.proto,
        !(first.transport is LaterFragment),
        whole == (PacketMeta {
            fragmentation: Fragmentation::Whole,
            transport: first.transport,
            ..later
        }),
        n == judged(m, p, first, direction, peer, c).0,
    ensures
        c2.now - c.now <= 2_000_000_000 ==> judged(n, p, later, direction, peer, c2).1 == judged(
            n,
            p,
            whole,
            direction,
            peer,
            c2,
        ).1,
        c2.now - c.now > 2_000_000_000 ==> judged(n, p, later, direction, peer, c2).1
            == PolicyVerdict::Deny,
{
}

/// A fragment of another datagram learns nothing from a first fragment: sender, receiver,
/// protocol and identification all tell datagrams apart.
pub proof fn law_datagrams_are_told_apart(
    m: Memory,
    p: InForce,
    first: PacketMeta,
    later: PacketMeta,
    direction: Direction,
    peer: PeerSeen,
    c: Clock,
    c2: Clock,
    id: u32,
    id2: u32,
)
    requires
        m.frags == Map::<FragKey, FragEntry>::empty(),
        first.fragmentation == (Fragmentation::First { identification: id }),
        later.fragmentation == (Fragmentation::Later { identification: id2 }),
        id != id2 || first.src != later.src || first.dst != later.dst || first.proto != later.proto,
    ensures
        judged(judged(m, p, first, direction, peer, c).0, p, later, direction, peer, c2).1
            == PolicyVerdict::Deny,
{
}

/// A tick of the sweeper ends a flow that has been idle for more than 300 s, where its
/// newest node is due and is among the 32 that are due first in their shard.
pub proof fn law_sweep_ends_idle_flows(w: Watch, i: int, x: int, now_ms: u64, now: u64)
    requires
        w.shards.len() == 16,
        0 <= i < 16,
        0 <= x < w.shards[i].len(),
        w.shards[i].len() - x <= 32,
        forall|y: int|
            x <= y < w.shards[i].len() ==> (#[trigger] w.shards[i][y]).expires_ms <= now_ms,
        w.flows.dom().contains(w.shards[i][x].key),
        w.flows[w.shards[i][x].key].seq == w.shards[i][x].seq,
        now - w.flows[w.shards[i][x].key].last_seen > 300_000_000_000,
    ensures
        !swept(w, now_ms, now).flows.dom().contains(w.shards[i][x].key),
{
    lemma_reap_from_ends(w, 0, i, x, now_ms, now);
    lemma_tidy_keeps_flows(reap_from(w, 0, now_ms, now), 0);
}

proof fn lemma_reap_from_ends(w: Watch, from: int, i: int, x: int, now_ms: u64, now: u64)
    requires
        w.shards.len() == 16,
        0 <= from <= i < 16,
        0 <= x < w.shards[i].len(),
        w.shards[i].len() - x <= 32,
        forall|y: int|
            x <= y < w.shards[i].len() ==> (#[trigger] w.shards[i][y]).expires_ms <= now_ms,
        w.flows.dom().contains(w.shards[i][x].key) ==> w.flows[w.shards[i][x].key].seq
            == w.shards[i][x].seq && now - w.flows[w.shards[i][x].key].last_seen > 300_000_000_000,
    ensures
        !reap_from(w, from, now_ms, now).flows.dom().contains(w.shards[i][x].key),
    decreases i - from,
{
    let k = w.shards[i][x].key;
    let t = reap_at(w, from, 32, now_ms, now);
    lemma_reaped_within(w.shards[from], w.flows, 32, now_ms, now);
    if from == i {
        lemma_reaped_ends(w.shards[i], w.flows, 32, x, now_ms, now);
        lemma_reap_from_within(t, from + 1, now_ms, now);
    } else {
        assert(t.shards[i] == w.shards[i]);
        lemma_reap_from_ends(t, from + 1, i, x, now_ms, now);
    }
}

proof fn lemma_reaped_ends(
    s: Seq<ExpiryNode>,
    flows: Map<CanonKey, TrackedFlow>,
    budget: nat,
    x: int,
    now_ms: u64,
    now: u64,
)
    requires
        0 <= x < s.len(),
        s.len() - x <= budget,
        forall|y: int| x <= y < s.len() ==> (#[trigger] s[y]).expires_ms <= now_ms,
        flows.dom().contains(s[x].key) ==> flows[s[x].key].seq == s[x].seq && now
            - flows[s[x].key].last_seen > 300_000_000_000,
    ensures
        !reaped(s, flows, budget, now_ms, now).1.dom().contains(s[x].key),
    decreases budget,
{
    assert(s[s.len() - 1].expires_ms <= now_ms);
    let f = after_due(flows, s.last(), now);
    let t = s.drop_last();
    if x == s.len() - 1 {
        lemma_reaped_within(t, f, (budget - 1) as nat, now_ms, now);
    } else {
        assert(t[x] == s[x]);
        assert forall|y: int| x <= y < t.len() implies (#[trigger] t[y]).expires_ms <= now_ms by {
            assert(t[y] == s[y]);
        }
        lemma_reaped_ends(t, f, (budget - 1) as nat, x, now_ms, now);
    }
}

/// The phases of a tracked TCP connection, bit by bit of its flags (1 is FIN, 4 is RST and 16
/// is ACK): what comes in or acknowledges establishes it, FIN and RST end it, and what has
/// ended stays so. Every packet renews it, under the policy that let it in.
pub proof fn law_phases_of_a_connection(
    f: TrackedFlow,
    inbound: bool,
    flags: u8,
    now: u64,
    now_ms: u64,
)
    ensures
        ({
            let g = touched(f, inbound, flags, now, now_ms).0;
            let over = flags & 1 != 0 || flags & 4 != 0;
            &&& f.phase == Phase::Tcp(TcpPhase::Established) && over ==> g.phase == Phase::Tcp(
                TcpPhase::TimeWait,
            )
            &&& f.phase == Phase::Tcp(TcpPhase::Established) && !over ==> g.phase == f.phase
            &&& f.phase == Phase::Tcp(TcpPhase::SynSent) && (inbound || flags & 16 != 0) && !over
                ==> g.phase == Phase::Tcp(TcpPhase::Established)
            &&& f.phase == Phase::Tcp(TcpPhase::SynSent) && (inbound || flags & 16 != 0) && over
                ==> g.phase == Phase::Tcp(TcpPhase::TimeWait)
            &&& f.phase == Phase::Tcp(TcpPhase::SynSent) && flags & 4 != 0 ==> g.phase
                == Phase::Tcp(TcpPhase::TimeWait)
            &&& f.phase == Phase::Tcp(TcpPhase::SynSent) && !inbound && flags & 16 == 0 && flags & 4
                == 0 ==> g.phase == f.phase
            &&& f.phase == Phase::Tcp(TcpPhase::TimeWait) || f.phase == Phase::Udp || f.phase
                == Phase::Icmp ==> g.phase == f.phase
            &&& g.last_seen == now
            &&& g.admitted_acl_gen == f.admitted_acl_gen
            &&& g.admitted_fw_gen == f.admitted_fw_gen
        }),
{
}

/// A flow is watched anew once a quarter of its lifetime has gone by since it last was,
/// on a clock that wraps around.
pub proof fn law_flow_is_watched_anew(
    f: TrackedFlow,
    inbound: bool,
    flags: u8,
    now: u64,
    now_ms: u64,
)
    requires
        f.seq < u64::MAX,
    ensures
        ({
            let (g, anew) = touched(f, inbound, flags, now, now_ms);
            let quarter: int = match g.phase {
                Phase::Tcp(TcpPhase::TimeWait) => 2_500,
                Phase::Tcp(_) => 75_000,
                Phase::Udp => 7_500,
                Phase::Icmp => 2_500,
            };
            &&& anew == ((now_ms - f.heap_ms) % 0x1_0000_0000_0000_0000 > quarter)
            &&& anew ==> g.heap_ms == now_ms && g.seq == f.seq + 1
            &&& !anew ==> g.heap_ms == f.heap_ms && g.seq == f.seq
        }),
{
}

/// A node is put where it comes due: the nodes of a shard stay in order, with the one that is
/// due first last, and no node is lost.
pub proof fn law_nodes_come_due_in_order(s: Seq<ExpiryNode>, n: ExpiryNode, i: int, j: int)
    requires
        forall|a: int, b: int|
            #![trigger s[a], s[b]]
            0 <= a < b < s.len() ==> s[a].expires_ms >= s[b].expires_ms,
        0 <= i < j <= s.len(),
    ensures
        with_node(s, n).len() == s.len() + 1,
        with_node(s, n)[i].expires_ms >= with_node(s, n)[j].expires_ms,
        with_node(s, n).contains(n),
        with_node(s, n).contains(s[i]),
{
    lemma_node_in_order(s, n);
    let w = with_node(s, n);
    assert(w.contains(s[i]));
}

proof fn lemma_node_in_order(s: Seq<ExpiryNode>, n: ExpiryNode)
    requires
        forall|a: int, b: int|
            #![trigger s[a], s[b]]
            0 <= a < b < s.len() ==> s[a].expires_ms >= s[b].expires_ms,
    ensures
        ({
            let w = with_node(s, n);
            &&& w.len() == s.len() + 1
            &&& w.contains(n)
            &&& forall|k: int| 0 <= k < s.len() ==> w.contains(#[trigger] s[k])
            &&& forall|k: int| 0 <= k < w.len() ==> #[trigger] w[k] == n || s.contains(w[k])
            &&& forall|a: int, b: int|
                #![trigger w[a], w[b]]
                0 <= a < b < w.len() ==> w[a].expires_ms >= w[b].expires_ms
        }),
    decreases s.len(),
{
    let w = with_node(s, n);
    if s.len() == 0 || w =~= seq![n] + s {
        assert(w[0] == n);
        assert(w =~= seq![n] + s);
        assert forall|k: int| 0 <= k < s.len() implies w.contains(#[trigger] s[k]) by {
            assert(w[k + 1] == s[k]);
        }
        assert forall|k: int| 0 <= k < w.len() implies #[trigger] w[k] == n || s.contains(
            w[k],
        ) by {
            if k > 0 {
                assert(s[k - 1] == w[k]);
            }
        }
        assert forall|a: int, b: int|
            #![trigger w[a], w[b]]
            0 <= a < b < w.len() implies w[a].expires_ms >= w[b].expires_ms by {
            assert(w[b] == s[b - 1]);
            if a > 0 {
                assert(w[a] == s[a - 1]);
            } else if b > 1 {
                assert(s[0].expires_ms >= s[b - 1].expires_ms);
            }
        }
    } else {
        let t = s.drop_first();
        let v = with_node(t, n);
        assert forall|a: int, b: int|
            #![trigger t[a], t[b]]
            0 <= a < b < t.len() implies t[a].expires_ms >= t[b].expires_ms by {
            assert(t[a] == s[a + 1] && t[b] == s[b + 1]);
        }
        lemma_node_in_order(t, n);
        assert(w =~= seq![s[0]] + v);
        let at = choose|k: int| 0 <= k < v.len() && v[k] == n;
        assert(w[at + 1] == n);
        assert forall|k: int| 0 <= k < s.len() implies w.contains(#[trigger] s[k]) by {
            if k > 0 {
                assert(t[k - 1] == s[k]);
                let m = choose|m: int| 0 <= m < v.len() && v[m] == s[k];
                assert(w[m + 1] == s[k]);
            } else {
                assert(w[0] == s[0]);
            }
        }
        assert forall|k: int| 0 <= k < w.len() implies #[trigger] w[k] == n || s.contains(
            w[k],
        ) by {
            if k > 0 {
                assert(v[k - 1] == w[k]);
                if v[k - 1] != n {
                    let m = choose|m: int| 0 <= m < t.len() && t[m] == v[k - 1];
                    assert(s[m + 1] == w[k]);
                }
            } else {
                assert(s[0] == w[0]);
            }
        }
        assert forall|a: int, b: int|
            #![trigger w[a], w[b]]
            0 <= a < b < w.len() implies w[a].expires_ms >= w[b].expires_ms by {
            assert(w[b] == v[b - 1]);
            if a > 0 {
                assert(w[a] == v[a - 1]);
            } else if v[b - 1] != n {
                assert(t.contains(v[b - 1]));
                let m = choose|m: int| 0 <= m < t.len() && t[m] == v[b - 1];
                assert(s[m + 1] == v[b - 1]);
                assert(s[0].expires_ms >= s[m + 1].expires_ms);
            }
        }
    }
}

/// A shard is crowded from 257 nodes on, if those are also more than four for each of its
/// share of the flows and eight to spare.
pub proof fn law_crowded_shard(nodes: nat, share: nat)
    ensures
        crowded(nodes, 16 * share) <==> nodes >= 257 && nodes > 4 * share + 32,
{
    assert(16 * share / 16 == share);
}

} // verus!
