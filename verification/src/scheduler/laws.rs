//! What holds of the scheduler across calls.

use super::{
    lemma_drop_first, lemma_list_push, lists_ok, DropReason, EnqueueOutcome, MAX_DRR_ROUNDS,
    PEER_BYTE_CAP, PEER_PACKET_CAP,
};
use super::codel::{control_step, is_step, observe, CodelState};
use super::flow::{
    expired, expired_run, lemma_drain, lemma_drain_deficit, lemma_expired_run, lemma_old_visit,
    old_visit, sparse_visit, FlowState, SparseVisit,
};
use super::model::{
    at_cap, enqueue_step, evict, first_in_line, late, makes_room, next_burst, old_pass, old_rounds,
    old_turn, place, probe, requeue_step, sparse_pass, sparse_turn, stepped, with_cap,
    with_emergency, with_enqueued, SchedState, SparseTurn,
};
use crate::packet::{lemma_total_push, lemma_total_split, total_size, FlowKey, LogicalPacket};
use vstd::prelude::*;

verus! {

/// What is queued of a flow.
pub open spec fn queued(s: SchedState, k: FlowKey) -> Seq<LogicalPacket> {
    if s.flows.contains_key(k) {
        s.flows[k].packets
    } else {
        Seq::empty()
    }
}

/// `a` is what is left of `b` after some packets were taken off its front.
pub open spec fn suffix(a: Seq<LogicalPacket>, b: Seq<LogicalPacket>) -> bool {
    a.len() <= b.len() && a == b.skip(b.len() - a.len())
}

/// `sent` is a run of flow `k`'s queue in `s`, in order, without its expired
/// packets; the queue in `t` is what follows that run.
pub open spec fn in_order(
    s: SchedState,
    t: SchedState,
    k: FlowKey,
    j: int,
    sent: Seq<LogicalPacket>,
    now: u64,
) -> bool {
    let m = queued(s, k).len() - queued(t, k).len();
    &&& 0 <= j <= m <= queued(s, k).len()
    &&& sent == queued(s, k).subrange(j, m).filter(|p: LogicalPacket| !expired(p, now))
}

/// No queue gains or reorders packets, and `sent` comes from one flow in order.
pub open spec fn ordered(s: SchedState, t: SchedState, sent: Seq<LogicalPacket>, now: u64) -> bool {
    &&& forall|k: FlowKey| suffix(#[trigger] queued(t, k), queued(s, k))
    &&& sent.len() > 0 ==> exists|k: FlowKey, j: int| in_order(s, t, k, j, sent, now)
}

proof fn lemma_suffix_trans(a: Seq<LogicalPacket>, b: Seq<LogicalPacket>, c: Seq<LogicalPacket>)
    requires
        suffix(a, b),
        suffix(b, c),
    ensures
        suffix(a, c),
{
    assert(a =~= c.skip(c.len() - a.len()));
}

proof fn lemma_ordered_refl(s: SchedState, now: u64)
    ensures
        ordered(s, s, Seq::empty(), now),
{
    assert forall|k: FlowKey| suffix(#[trigger] queued(s, k), queued(s, k)) by {
        assert(queued(s, k).skip(0) =~= queued(s, k));
    }
}

/// A step that sends nothing, then one that sends `sent`.
proof fn lemma_ordered_trans(
    s: SchedState,
    t: SchedState,
    u: SchedState,
    sent: Seq<LogicalPacket>,
    now: u64,
)
    requires
        ordered(s, t, Seq::empty(), now),
        ordered(t, u, sent, now),
    ensures
        ordered(s, u, sent, now),
{
    assert forall|k: FlowKey| suffix(#[trigger] queued(u, k), queued(s, k)) by {
        assert(suffix(queued(t, k), queued(s, k)));
        lemma_suffix_trans(queued(u, k), queued(t, k), queued(s, k));
    }
    if sent.len() > 0 {
        let (k, j) = choose|k: FlowKey, j: int| in_order(t, u, k, j, sent, now);
        let d = queued(s, k).len() - queued(t, k).len();
        assert(suffix(queued(t, k), queued(s, k)));
        let m = queued(t, k).len() - queued(u, k).len();
        assert(queued(t, k).subrange(j, m) =~= queued(s, k).subrange(j + d, m + d));
        assert(in_order(s, u, k, j + d, sent, now));
    }
}

proof fn lemma_old_turn_ordered(s: SchedState, now: u64)
    ensures
        ordered(s, old_turn(s, now).0, old_turn(s, now).1, now),
{
    let key = s.old_list[0];
    let (t, sent) = old_turn(s, now);
    if s.flows.contains_key(key) {
        let q = s.flows[key];
        lemma_old_visit(q, s.quantum as int, s.target, s.interval, now);
        let v = old_visit(q, s.quantum as int, s.target, s.interval, now);
        assert(queued(t, key) =~= v.q.packets);
        let m = q.packets.len() - v.q.packets.len();
        assert forall|k: FlowKey| suffix(#[trigger] queued(t, k), queued(s, k)) by {
            if k != key {
                assert(queued(s, k).skip(0) =~= queued(s, k));
            }
        }
        if sent.len() > 0 {
            assert(q.packets.take(m) =~= q.packets.subrange(0, m));
            assert(in_order(s, t, key, 0, sent, now));
        }
    } else {
        lemma_ordered_refl(s, now);
        assert forall|k: FlowKey| suffix(#[trigger] queued(t, k), queued(s, k)) by {
            assert(queued(s, k).skip(0) =~= queued(s, k));
        }
    }
}

proof fn lemma_sparse_turn_ordered(s: SchedState, now: u64)
    ensures
        ({
            let (t, out) = sparse_turn(s, now);
            ordered(
                s,
                t,
                match out {
                    SparseTurn::Sent(p) => seq![p],
                    _ => Seq::empty(),
                },
                now,
            )
        }),
{
    let key = s.new_list[0];
    let (t, out) = sparse_turn(s, now);
    if s.flows.contains_key(key) {
        let q = s.flows[key];
        let n = expired_run(q.packets, now) as int;
        let live = q.packets.skip(n);
        lemma_expired_run(q.packets, now);
        let (v, _) = sparse_visit(q, s.quantum as int, now);
        assert forall|k: FlowKey| suffix(#[trigger] queued(t, k), queued(s, k)) by {
            if k != key {
                assert(queued(s, k).skip(0) =~= queued(s, k));
            } else {
                match v {
                    SparseVisit::Gone => {
                        assert(q.packets.skip(q.packets.len() as int) =~= Seq::empty());
                    },
                    SparseVisit::Demoted(_) => {},
                    SparseVisit::Sent(q2, _) => {
                        assert(queued(t, key) =~= q2.packets);
                        assert(live.drop_first() =~= q.packets.skip(n + 1));
                    },
                }
            }
        }
        if let SparseVisit::Sent(q2, p) = v {
            assert(queued(t, key) =~= q2.packets);
            let f = |p: LogicalPacket| !expired(p, now);
            let one = q.packets.subrange(n, n + 1);
            assert(one =~= seq![p]);
            reveal(Seq::filter);
            assert(one.drop_last() =~= Seq::<LogicalPacket>::empty());
            assert(Seq::<LogicalPacket>::empty().filter(f) =~= Seq::empty());
            assert(one.last() == p);
            assert(one.filter(f) =~= seq![p]);
            assert(in_order(s, t, key, n, seq![p], now));
        }
    } else {
        assert forall|k: FlowKey| suffix(#[trigger] queued(t, k), queued(s, k)) by {
            assert(queued(s, k).skip(0) =~= queued(s, k));
        }
    }
}

proof fn lemma_sparse_pass_ordered(s: SchedState, now: u64)
    ensures
        ordered(s, sparse_pass(s, now).0, sparse_pass(s, now).1, now),
    decreases s.new_list.len(),
{
    if s.new_list.len() == 0 {
        lemma_ordered_refl(s, now);
    } else {
        lemma_sparse_turn_ordered(s, now);
        let (t, out) = sparse_turn(s, now);
        if out is Gone {
            lemma_sparse_pass_ordered(t, now);
            lemma_ordered_trans(s, t, sparse_pass(t, now).0, sparse_pass(t, now).1, now);
        }
    }
}

proof fn lemma_old_pass_ordered(s: SchedState, n: nat, now: u64)
    ensures
        ordered(s, old_pass(s, n, now).0, old_pass(s, n, now).1, now),
    decreases n,
{
    if n == 0 || s.old_list.len() == 0 {
        lemma_ordered_refl(s, now);
    } else {
        lemma_old_turn_ordered(s, now);
        let (t, sent) = old_turn(s, now);
        if sent.len() == 0 {
            assert(sent =~= Seq::empty());
            let m = (n - 1) as nat;
            lemma_old_pass_ordered(t, m, now);
            lemma_ordered_trans(s, t, old_pass(t, m, now).0, old_pass(t, m, now).1, now);
        }
    }
}

proof fn lemma_old_rounds_ordered(s: SchedState, r: nat, now: u64)
    ensures
        ordered(s, old_rounds(s, r, now).0, old_rounds(s, r, now).1, now),
    decreases r,
{
    if r == 0 || s.old_list.len() == 0 {
        lemma_ordered_refl(s, now);
    } else {
        let n = s.old_list.len();
        lemma_old_pass_ordered(s, n, now);
        let (t, sent) = old_pass(s, n, now);
        if sent.len() == 0 {
            assert(sent =~= Seq::empty());
            let m = (r - 1) as nat;
            lemma_old_rounds_ordered(t, m, now);
            lemma_ordered_trans(s, t, old_rounds(t, m, now).0, old_rounds(t, m, now).1, now);
        }
    }
}

/// Order is preserved within a flow: a burst is a run of one flow's queue, in
/// queue order, less the packets past the ceiling; what stays queued of every
/// flow is a suffix of what was queued.
pub proof fn law_flow_order(s: SchedState, now: u64)
    ensures
        ordered(s, next_burst(s, now).0, next_burst(s, now).1, now),
    decreases s.new_list.len(),
{
    lemma_sparse_pass_ordered(s, now);
    let (t, first) = sparse_pass(s, now);
    if first.len() == 0 {
        assert(first =~= Seq::empty());
        lemma_old_rounds_ordered(t, MAX_DRR_ROUNDS as nat, now);
        let (u, sent) = old_rounds(t, MAX_DRR_ROUNDS as nat, now);
        lemma_ordered_trans(s, t, u, sent, now);
        if sent.len() == 0 && u.old_list.len() == 0 && 0 < u.new_list.len() < s.new_list.len() {
            assert(sent =~= Seq::empty());
            law_flow_order(u, now);
            lemma_ordered_trans(s, u, next_burst(u, now).0, next_burst(u, now).1, now);
        }
    }
}

/// Requeues a burst packet by packet, from its last to its first.
pub open spec fn requeue_all(s: SchedState, k: FlowKey, burst: Seq<LogicalPacket>) -> SchedState
    decreases burst.len(),
{
    if burst.len() == 0 {
        s
    } else {
        requeue_all(requeue_step(s, k, burst.last()), k, burst.drop_last())
    }
}

/// A burst that is requeued from its last packet to its first goes back in front
/// of its flow in order, and back on the books: bytes and packets go up by exactly
/// what the burst holds, and no other flow is touched.
pub proof fn law_requeue_restores(s: SchedState, k: FlowKey, burst: Seq<LogicalPacket>)
    ensures
        ({
            let t = requeue_all(s, k, burst);
            &&& queued(t, k) == burst + queued(s, k)
            &&& t.packets == s.packets + burst.len()
            &&& t.bytes == s.bytes + total_size(burst)
            &&& forall|x: FlowKey| x != k ==> #[trigger] queued(t, x) == queued(s, x)
            &&& t.counters.drops_codel == s.counters.drops_codel
            &&& t.counters.drops_emergency == s.counters.drops_emergency
            &&& t.counters.drops_cap == s.counters.drops_cap
        }),
    decreases burst.len(),
{
    if burst.len() == 0 {
        assert(burst + queued(s, k) =~= queued(s, k));
    } else {
        let p = burst.last();
        let u = requeue_step(s, k, p);
        assert(seq![p] + Seq::<LogicalPacket>::empty() =~= seq![p]);
        assert(queued(u, k) =~= seq![p] + queued(s, k));
        lemma_total_split(seq![p], queued(s, k));
        lemma_total_push(Seq::empty(), p);
        assert(Seq::<LogicalPacket>::empty().push(p) =~= seq![p]);
        law_requeue_restores(u, k, burst.drop_last());
        assert(burst.drop_last() + (seq![p] + queued(s, k)) =~= burst + queued(s, k));
    }
}

/// A packet that was sent alone and is requeued leaves the flow's queue as it
/// was, but for packets that were discarded ahead of it.
pub proof fn law_dequeue_requeue(s: SchedState, now: u64, k: FlowKey, j: int)
    requires
        in_order(s, next_burst(s, now).0, k, j, next_burst(s, now).1, now),
        forall|i: int|
            j <= i < queued(s, k).len() - queued(next_burst(s, now).0, k).len() ==> !expired(
                #[trigger] queued(s, k)[i],
                now,
            ),
    ensures
        queued(requeue_all(next_burst(s, now).0, k, next_burst(s, now).1), k) == queued(
            s,
            k,
        ).skip(j),
{
    let (t, sent) = next_burst(s, now);
    law_flow_order(s, now);
    law_requeue_restores(t, k, sent);
    let m = queued(s, k).len() - queued(t, k).len();
    let run = queued(s, k).subrange(j, m);
    let f = |p: LogicalPacket| !expired(p, now);
    assert forall|i: int| 0 <= i < run.len() implies f(#[trigger] run[i]) by {
        assert(run[i] == queued(s, k)[j + i]);
    }
    lemma_filter_all(run, f);
    assert(suffix(queued(t, k), queued(s, k)));
    assert(run + queued(t, k) =~= queued(s, k).skip(j));
}

proof fn lemma_filter_all(s: Seq<LogicalPacket>, f: spec_fn(LogicalPacket) -> bool)
    requires
        forall|i: int| 0 <= i < s.len() ==> f(#[trigger] s[i]),
    ensures
        s.filter(f) == s,
    decreases s.len(),
{
    reveal(Seq::filter);
    if s.len() > 0 {
        assert forall|i: int| 0 <= i < s.drop_last().len() implies f(#[trigger] s.drop_last()[i]) by {
            assert(s.drop_last()[i] == s[i]);
        }
        lemma_filter_all(s.drop_last(), f);
        assert(f(s[s.len() - 1]));
        assert(s.drop_last().push(s.last()) =~= s);
    } else {
        assert(s.filter(f) =~= s);
    }
}

/// Probing turns the lists and changes nothing else; what it finds is first in
/// line, and its head is past the ceiling.
pub proof fn lemma_probe(s: SchedState, n: nat, now: u64)
    ensures
        ({
            let (t, found) = probe(s, n, now);
            &&& t == (SchedState { old_list: t.old_list, new_list: t.new_list, ..s })
            &&& found matches Some(k) ==> late(t, k, now) && first_in_line(t, k)
        }),
    decreases n,
{
    if n == 0 || (s.old_list.len() == 0 && s.new_list.len() == 0) {
    } else {
        let key = if s.old_list.len() > 0 {
            s.old_list[0]
        } else {
            s.new_list[0]
        };
        let t = stepped(s);
        if !s.flows.contains_key(key) {
            lemma_probe(t, (n - 1) as nat, now);
        } else if late(s, key, now) {
        } else if s.flows[key].sparse {
            lemma_probe(
                SchedState { new_list: t.new_list.push(key), ..t },
                (n - 1) as nat,
                now,
            );
        } else {
            lemma_probe(
                SchedState { old_list: t.old_list.push(key), ..t },
                (n - 1) as nat,
                now,
            );
        }
    }
}

/// Every flow that is known has a packet queued.
pub open spec fn occupied(s: SchedState) -> bool {
    forall|k: FlowKey| #[trigger] s.flows.contains_key(k) ==> s.flows[k].packets.len() > 0
}

/// Packets and bytes go up by the newcomer, less the packet that is reported as
/// evicted for it; a rejection leaves every queue as it was.
pub open spec fn reconciled(
    s: SchedState,
    t: SchedState,
    p: LogicalPacket,
    out: EnqueueOutcome,
) -> bool {
    match out {
        EnqueueOutcome::Accepted => {
            &&& t.packets == s.packets + 1
            &&& t.bytes == s.bytes + p.size()
            &&& t.counters == with_enqueued(s.counters)
            &&& t.reported_emergency == s.reported_emergency
        },
        EnqueueOutcome::AcceptedEvicted { reason, evicted_len } => {
            &&& t.packets == s.packets
            &&& t.bytes == s.bytes + p.size() - evicted_len
            &&& reason == DropReason::FlowCap ==> t.counters == with_enqueued(with_cap(s.counters))
                && t.reported_emergency == s.reported_emergency
            &&& reason != DropReason::FlowCap ==> reason == DropReason::EmergencyCeiling
                && t.counters == with_enqueued(with_emergency(s.counters, 1))
                && t.reported_emergency == (s.reported_emergency + 1) as u64
        },
        EnqueueOutcome::Rejected { .. } => {
            &&& t.packets == s.packets
            &&& t.bytes == s.bytes
            &&& t.flows == s.flows
            &&& t.counters == with_cap(s.counters)
            &&& t.reported_emergency == s.reported_emergency
        },
    }
}

/// What one arrival does to the queues: each keeps its order, at most one loses
/// its head, and the newcomer, where it is admitted, is last in its own.
pub open spec fn admitted_into(
    s: SchedState,
    t: SchedState,
    p: LogicalPacket,
    out: EnqueueOutcome,
) -> bool {
    forall|k: FlowKey|
        {
            let kept = #[trigger] queued(t, k);
            &&& out is Rejected ==> kept == queued(s, k)
            &&& !(out is Rejected) && k != p.flow ==> suffix(kept, queued(s, k))
            &&& !(out is Rejected) && k == p.flow ==> kept.len() > 0 && kept.last() == p && suffix(
                kept.drop_last(),
                queued(s, k),
            )
        }
}

/// The outcome of an arrival accounts for every packet that moved: the gauges
/// follow from it alone, and the victim it reports is counted nowhere else.
pub proof fn law_outcome_accounts(s: SchedState, p: LogicalPacket, now: u64)
    requires
        occupied(s),
        s.flow_packet_cap >= 1,
    ensures
        ({
            let (t, out) = enqueue_step(s, p, now);
            &&& reconciled(s, t, p, out)
            &&& admitted_into(s, t, p, out)
            &&& occupied(t)
            &&& t.flow_packet_cap == s.flow_packet_cap
        }),
{
    let full = s.packets >= PEER_PACKET_CAP || s.bytes + p.size() > PEER_BYTE_CAP;
    let (t, found) = probe(s, super::CAP_PROBE_BOUND as nat, now);
    lemma_probe(s, super::CAP_PROBE_BOUND as nat, now);
    let (u, out) = enqueue_step(s, p, now);
    if full && found is Some && makes_room(t, found->0, p.size() as int) && !at_cap(
        evict(t, found->0),
        p.flow,
    ) {
        let key = found->0;
        let e = evict(t, key);
        lemma_evicted(t, key);
        t.flows[key].packets[0].lemma_size();
        lemma_placed(e, p);
        assert forall|k: FlowKey| true implies ({
            let kept = #[trigger] queued(u, k);
            &&& k != p.flow ==> suffix(kept, queued(s, k))
            &&& k == p.flow ==> kept.len() > 0 && kept.last() == p && suffix(
                kept.drop_last(),
                queued(s, k),
            )
        }) by {
            assert(queued(t, k) == queued(s, k));
            if k == p.flow {
                lemma_suffix_trans(queued(u, k).drop_last(), queued(e, k), queued(s, k));
            } else {
                lemma_suffix_trans(queued(u, k), queued(e, k), queued(s, k));
            }
        }
    } else if full && out is Rejected {
        assert forall|k: FlowKey| #[trigger] queued(u, k) == queued(s, k) by {}
    } else {
        let b = if full {
            t
        } else {
            s
        };
        lemma_placed(b, p);
        assert forall|k: FlowKey| #[trigger] queued(b, k) == queued(s, k) by {}
    }
}

/// Discarding a head takes one packet off one queue.
proof fn lemma_evicted(s: SchedState, key: FlowKey)
    requires
        occupied(s),
        s.flows.contains_key(key),
    ensures
        ({
            let t = evict(s, key);
            &&& occupied(t)
            &&& t.packets == s.packets - 1
            &&& t.bytes == s.bytes - s.flows[key].packets[0].size()
            &&& forall|k: FlowKey| suffix(#[trigger] queued(t, k), queued(s, k))
        }),
{
    let t = evict(s, key);
    crate::packet::lemma_total_first(s.flows[key].packets);
    assert forall|k: FlowKey| suffix(#[trigger] queued(t, k), queued(s, k)) by {
        if k == key {
            assert(queued(t, k) =~= queued(s, k).skip(1));
        } else {
            assert(queued(t, k) =~= queued(s, k).skip(0));
        }
    }
}

/// Placing puts the packet last in its flow.
proof fn lemma_placed(s: SchedState, p: LogicalPacket)
    requires
        occupied(s),
        s.flow_packet_cap >= 1,
    ensures
        ({
            let (t, out) = place(s, p);
            &&& reconciled(s, t, p, out)
            &&& admitted_into(s, t, p, out)
            &&& !(out is Rejected)
            &&& out is Accepted == !at_cap(s, p.flow)
            &&& occupied(t)
            &&& t.flow_packet_cap == s.flow_packet_cap
        }),
{
    let (t, out) = place(s, p);
    let was = queued(s, p.flow);
    lemma_total_push(was, p);
    if was.len() > 0 {
        lemma_total_push(was.drop_first(), p);
        crate::packet::lemma_total_first(was);
        was[0].lemma_size();
    }
    assert forall|k: FlowKey| true implies ({
        let kept = #[trigger] queued(t, k);
        &&& k != p.flow ==> suffix(kept, queued(s, k))
        &&& k == p.flow ==> kept.len() > 0 && kept.last() == p && suffix(
            kept.drop_last(),
            queued(s, k),
        )
    }) by {
        if k != p.flow {
            assert(queued(t, k) =~= queued(s, k).skip(0));
        } else if out is Accepted {
            assert(queued(t, k).drop_last() =~= was.skip(0));
        } else {
            assert(queued(t, k).drop_last() =~= was.skip(1));
        }
    }
}

/// The peer's memory stays within its caps, whatever arrives.
pub proof fn law_caps(s: SchedState, p: LogicalPacket, now: u64)
    requires
        s.packets <= PEER_PACKET_CAP,
        s.bytes <= PEER_BYTE_CAP,
        occupied(s),
        s.flow_packet_cap >= 1,
    ensures
        ({
            let (t, out) = enqueue_step(s, p, now);
            &&& t.packets <= PEER_PACKET_CAP
            &&& t.bytes <= PEER_BYTE_CAP
        }),
{
    law_outcome_accounts(s, p, now);
    lemma_probe(s, super::CAP_PROBE_BOUND as nat, now);
    let t = probe(s, super::CAP_PROBE_BOUND as nat, now).0;
    lemma_placed(t, p);
    if let Some(k) = probe(s, super::CAP_PROBE_BOUND as nat, now).1 {
        t.flows[k].packets[0].lemma_size();
        if at_cap(t, p.flow) {
            t.flows[p.flow].packets[0].lemma_size();
        }
    }
}

/// CoDel will not drop at this time, whatever head it sees.
pub open spec fn calm(c: CodelState, now: u64) -> bool {
    match c.first_above_time {
        None => true,
        Some(t) => now < t || (c.dropping && now < c.drop_next),
    }
}

/// Every packet of the flow is affordable after `g` more quanta.
pub open spec fn affordable(q: FlowState, quantum: int, g: int) -> bool {
    &&& q.packets.len() > 0
    &&& forall|i: int|
        0 <= i < q.packets.len() ==> (#[trigger] q.packets[i]).size() <= q.deficit + g * quantum
}

/// No packet costs more than the rounds of one call can grant, and every episode
/// of drops is shorter than the interval counts nanoseconds.
pub open spec fn in_reach(s: SchedState) -> bool {
    &&& lists_ok(s.flows.dom(), s.new_list, s.old_list)
    &&& s.quantum > 0
    &&& 0 < s.interval < 0x8000_0000_0000_0000
    &&& forall|k: FlowKey| #[trigger]
        s.flows.contains_key(k) ==> affordable(
            s.flows[k],
            s.quantum as int,
            MAX_DRR_ROUNDS - 1,
        ) && s.flows[k].codel.count < s.interval
}

proof fn lemma_step_positive(interval: int, n: int)
    requires
        0 < interval < 0x8000_0000_0000_0000,
        1 <= n <= interval,
    ensures
        control_step(interval, n) >= 1,
{
    lemma_step_exists(interval, n);
    let s = control_step(interval, n);
    assert(is_step(s, interval, n));
    if s == 0 {
        assert((2 * s + 1) * (2 * s + 1) * n == n) by (nonlinear_arith)
            requires
                s == 0,
        ;
        assert(4 * interval * interval >= n) by (nonlinear_arith)
            requires
                1 <= n <= interval,
        ;
    }
}

pub proof fn lemma_step_exists(interval: int, n: int)
    requires
        0 < interval,
        n >= 1,
    ensures
        exists|s: int| is_step(s, interval, n),
{
    lemma_step_below(interval, n, 2 * interval + 1);
}

/// Below any bound that is large enough there is a step.
proof fn lemma_step_below(interval: int, n: int, top: int)
    requires
        0 < interval,
        n >= 1,
        top >= 0,
        4 * interval * interval < (2 * top + 1) * (2 * top + 1) * n || top >= 2 * interval + 1,
    ensures
        exists|s: int| is_step(s, interval, n),
    decreases top,
{
    assert(4 * interval * interval < (2 * top + 1) * (2 * top + 1) * n) by {
        if top >= 2 * interval + 1 {
            let x = 2 * top + 1;
            assert(4 * interval * interval < x * x * n) by (nonlinear_arith)
                requires
                    x >= 2 * interval + 1,
                    interval > 0,
                    n >= 1,
            ;
        }
    }
    if top == 0 || (2 * top - 1) * (2 * top - 1) * n <= 4 * interval * interval {
        assert(is_step(top, interval, n));
    } else {
        let x = 2 * top - 1;
        assert(2 * (top - 1) + 1 == x);
        lemma_step_below(interval, n, top - 1);
    }
}

/// After a visit the flow is calm; if it was calm, an unsent head has gained one
/// quantum and is still out of reach.
proof fn lemma_visit(q: FlowState, quantum: int, target: u64, interval: u64, now: u64, g: int)
    requires
        affordable(q, quantum, g),
        quantum > 0,
        g >= 0,
        0 < interval < 0x8000_0000_0000_0000,
        calm(q.codel, now) || q.codel.count < interval,
        old_visit(q, quantum, target, interval, now).sent.len() == 0,
        old_visit(q, quantum, target, interval, now).q.packets.len() > 0,
    ensures
        ({
            let v = old_visit(q, quantum, target, interval, now).q;
            &&& calm(v.codel, now)
            &&& affordable(v, quantum, g)
            &&& calm(q.codel, now) ==> g > 1 && affordable(v, quantum, g - 1)
        }),
{
    let v = old_visit(q, quantum, target, interval, now);
    lemma_old_visit(q, quantum, target, interval, now);
    lemma_expired_run(q.packets, now);
    let n = expired_run(q.packets, now) as int;
    let live = q.packets.skip(n);
    let k = q.packets.len() - v.q.packets.len();
    assert forall|i: int| 0 <= i < v.q.packets.len() implies (#[trigger] v.q.packets[i]).size()
        <= q.deficit + g * quantum by {
        assert(v.q.packets[i] == q.packets[i + k]);
    }
    let (c, dropped) = observe(
        q.codel,
        super::flow::age(now, live[0].enqueued_at),
        now,
        target,
        interval,
    );
    if dropped {
        let c1 = if q.codel.dropping {
            q.codel.count as int
        } else {
            0int
        };
        lemma_step_positive(interval as int, c1 + 1);
        lemma_step_bound(interval as int, c1 + 1);
    } else {
        lemma_drain(live, q.deficit + quantum, now);
        lemma_drain_deficit(live, q.deficit + quantum, now);
        assert(v.q.deficit == q.deficit + quantum);
        assert((g - 1) * quantum == g * quantum - quantum) by (nonlinear_arith);
        assert(v.q.packets[0].size() > v.q.deficit);
        assert(v.q.packets[0].size() <= q.deficit + g * quantum);
        if g <= 1 {
            assert(g * quantum <= quantum) by (nonlinear_arith)
                requires
                    g <= 1,
                    quantum > 0,
            ;
        }
        assert(g * quantum >= 0) by (nonlinear_arith)
            requires
                g >= 0,
                quantum > 0,
        ;
    }
}

pub proof fn lemma_step_bound(interval: int, n: int)
    requires
        0 < interval,
        n >= 1,
    ensures
        control_step(interval, n) <= interval,
{
    lemma_step_exists(interval, n);
    let s = control_step(interval, n);
    assert(is_step(s, interval, n));
    if s > interval {
        let x = 2 * s - 1;
        assert(x * x * n > 4 * interval * interval) by (nonlinear_arith)
            requires
                x >= 2 * interval + 1,
                interval > 0,
                n >= 1,
        ;
    }
}

/// The flow behind a place of the DRR list is ready for another visit.
pub open spec fn poised(s: SchedState, i: int, g: int, now: u64) -> bool {
    let k = s.old_list[i];
    &&& s.flows.contains_key(k)
    &&& affordable(s.flows[k], s.quantum as int, g)
    &&& calm(s.flows[k].codel, now)
}

/// The flow behind a place of the DRR list has not been visited in this call.
pub open spec fn unvisited(s: SchedState, i: int, now: u64) -> bool {
    let k = s.old_list[i];
    &&& s.flows.contains_key(k)
    &&& affordable(s.flows[k], s.quantum as int, MAX_DRR_ROUNDS - 1)
    &&& s.flows[k].codel.count < s.interval
}

pub open spec fn same_setting(s: SchedState, t: SchedState) -> bool {
    &&& t.quantum == s.quantum
    &&& t.interval == s.interval
    &&& t.target == s.target
    &&& t.new_list == s.new_list
    &&& forall|k: FlowKey| #[trigger]
        s.new_list.contains(k) && s.flows.contains_key(k) ==> t.flows.contains_key(k) && t.flows[k]
            == s.flows[k]
}

proof fn lemma_turn_lists(s: SchedState, now: u64)
    requires
        lists_ok(s.flows.dom(), s.new_list, s.old_list),
        s.old_list.len() > 0,
    ensures
        ({
            let t = old_turn(s, now).0;
            &&& lists_ok(t.flows.dom(), t.new_list, t.old_list)
            &&& same_setting(s, t)
            &&& s.flows.contains_key(s.old_list[0])
        }),
{
    let key = s.old_list[0];
    lemma_drop_first(s.old_list);
    assert(s.old_list.contains(key));
    assert(s.flows.dom().contains(key));
    let rest = s.old_list.drop_first();
    lemma_list_push(rest, key);
    let t = old_turn(s, now).0;
    assert forall|k: FlowKey| #[trigger] t.flows.dom().contains(k) <==> t.new_list.contains(k)
        || t.old_list.contains(k) by {
        assert(s.flows.dom().contains(k) <==> s.new_list.contains(k) || s.old_list.contains(k));
        assert(!(s.new_list.contains(key) && s.old_list.contains(key)));
    }
    assert forall|k: FlowKey| !(#[trigger] t.new_list.contains(k) && t.old_list.contains(k)) by {
        assert(!(s.new_list.contains(k) && s.old_list.contains(k)));
    }
    assert forall|k: FlowKey| #[trigger]
        s.new_list.contains(k) && s.flows.contains_key(k) implies t.flows.contains_key(k)
        && t.flows[k] == s.flows[k] by {
        assert(!(s.new_list.contains(key) && s.old_list.contains(key)));
    }
}

proof fn lemma_setting_trans(s: SchedState, t: SchedState, u: SchedState)
    requires
        same_setting(s, t),
        same_setting(t, u),
    ensures
        same_setting(s, u),
{
    assert forall|k: FlowKey| #[trigger]
        s.new_list.contains(k) && s.flows.contains_key(k) implies u.flows.contains_key(k)
        && u.flows[k] == s.flows[k] by {
        assert(t.new_list.contains(k));
    }
}

/// A round over flows that are all poised with `g` quanta to go leaves them
/// poised with one less, and removes all of them at the last one.
proof fn lemma_poised_pass(s: SchedState, n: nat, g: int, now: u64)
    requires
        lists_ok(s.flows.dom(), s.new_list, s.old_list),
        s.quantum > 0,
        0 < s.interval < 0x8000_0000_0000_0000,
        n <= s.old_list.len(),
        g >= 1,
        forall|i: int| 0 <= i < n ==> #[trigger] poised(s, i, g, now),
        forall|i: int| n <= i < s.old_list.len() ==> #[trigger] poised(s, i, g - 1, now),
        g == 1 ==> n == s.old_list.len(),
        old_pass(s, n, now).1.len() == 0,
    ensures
        ({
            let t = old_pass(s, n, now).0;
            &&& lists_ok(t.flows.dom(), t.new_list, t.old_list)
            &&& same_setting(s, t)
            &&& forall|i: int| 0 <= i < t.old_list.len() ==> #[trigger] poised(t, i, g - 1, now)
            &&& g == 1 ==> t.old_list.len() == 0
        }),
    decreases n,
{
    if n == 0 || s.old_list.len() == 0 {
    } else {
        let (t, sent) = old_turn(s, now);
        lemma_turn_lists(s, now);
        let key = s.old_list[0];
        assert(poised(s, 0, g, now));
        let v = old_visit(s.flows[key], s.quantum as int, s.target, s.interval, now);
        assert(sent.len() == 0);
        if v.q.packets.len() > 0 {
            lemma_visit(s.flows[key], s.quantum as int, s.target, s.interval, now, g);
        }
        lemma_drop_first(s.old_list);
        let m = (n - 1) as nat;
        assert forall|i: int| 0 <= i < m implies #[trigger] poised(t, i, g, now) by {
            assert(poised(s, i + 1, g, now));
            assert(t.old_list[i] == s.old_list[i + 1]);
            assert(t.old_list[i] != key);
        }
        assert forall|i: int| m <= i < t.old_list.len() implies #[trigger] poised(
            t,
            i,
            g - 1,
            now,
        ) by {
            if i < s.old_list.len() - 1 {
                assert(poised(s, i + 1, g - 1, now));
                assert(t.old_list[i] == s.old_list[i + 1]);
                assert(t.old_list[i] != key);
            } else {
                assert(t.old_list[i] == key);
            }
        }
        lemma_poised_pass(t, m, g, now);
        lemma_setting_trans(s, t, old_pass(t, m, now).0);
    }
}

/// The first round: every flow that stays is poised afterwards.
proof fn lemma_first_pass(s: SchedState, n: nat, now: u64)
    requires
        lists_ok(s.flows.dom(), s.new_list, s.old_list),
        s.quantum > 0,
        0 < s.interval < 0x8000_0000_0000_0000,
        n <= s.old_list.len(),
        forall|i: int| 0 <= i < n ==> #[trigger] unvisited(s, i, now),
        forall|i: int|
            n <= i < s.old_list.len() ==> #[trigger] poised(s, i, MAX_DRR_ROUNDS - 1, now),
        old_pass(s, n, now).1.len() == 0,
    ensures
        ({
            let t = old_pass(s, n, now).0;
            &&& lists_ok(t.flows.dom(), t.new_list, t.old_list)
            &&& same_setting(s, t)
            &&& forall|i: int|
                0 <= i < t.old_list.len() ==> #[trigger] poised(t, i, MAX_DRR_ROUNDS - 1, now)
        }),
    decreases n,
{
    if n == 0 || s.old_list.len() == 0 {
    } else {
        let (t, sent) = old_turn(s, now);
        lemma_turn_lists(s, now);
        let key = s.old_list[0];
        assert(unvisited(s, 0, now));
        let v = old_visit(s.flows[key], s.quantum as int, s.target, s.interval, now);
        if v.q.packets.len() > 0 {
            lemma_visit(
                s.flows[key],
                s.quantum as int,
                s.target,
                s.interval,
                now,
                MAX_DRR_ROUNDS - 1,
            );
        }
        lemma_drop_first(s.old_list);
        let m = (n - 1) as nat;
        assert forall|i: int| 0 <= i < m implies #[trigger] unvisited(t, i, now) by {
            assert(unvisited(s, i + 1, now));
            assert(t.old_list[i] == s.old_list[i + 1]);
            assert(t.old_list[i] != key);
        }
        assert forall|i: int| m <= i < t.old_list.len() implies #[trigger] poised(
            t,
            i,
            MAX_DRR_ROUNDS - 1,
            now,
        ) by {
            if i < s.old_list.len() - 1 {
                assert(poised(s, i + 1, MAX_DRR_ROUNDS - 1, now));
                assert(t.old_list[i] == s.old_list[i + 1]);
                assert(t.old_list[i] != key);
            } else {
                assert(t.old_list[i] == key);
            }
        }
        lemma_first_pass(t, m, now);
        lemma_setting_trans(s, t, old_pass(t, m, now).0);
    }
}

proof fn lemma_poised_rounds(s: SchedState, g: nat, now: u64)
    requires
        lists_ok(s.flows.dom(), s.new_list, s.old_list),
        s.quantum > 0,
        0 < s.interval < 0x8000_0000_0000_0000,
        forall|i: int| 0 <= i < s.old_list.len() ==> #[trigger] poised(s, i, g as int, now),
        g >= 1,
        old_rounds(s, g, now).1.len() == 0,
    ensures
        ({
            let t = old_rounds(s, g, now).0;
            &&& lists_ok(t.flows.dom(), t.new_list, t.old_list)
            &&& same_setting(s, t)
            &&& t.old_list.len() == 0
        }),
    decreases g,
{
    if s.old_list.len() > 0 {
        let n = s.old_list.len();
        let t = old_pass(s, n, now).0;
        lemma_poised_pass(s, n, g as int, now);
        if g > 1 {
            lemma_poised_rounds(t, (g - 1) as nat, now);
            lemma_setting_trans(s, t, old_rounds(t, (g - 1) as nat, now).0);
        }
    }
}

proof fn lemma_rounds_drain(s: SchedState, now: u64)
    requires
        in_reach(s),
        old_rounds(s, MAX_DRR_ROUNDS as nat, now).1.len() == 0,
    ensures
        ({
            let t = old_rounds(s, MAX_DRR_ROUNDS as nat, now).0;
            &&& in_reach(t)
            &&& t.old_list.len() == 0
            &&& t.new_list == s.new_list
        }),
{
    let t = old_rounds(s, MAX_DRR_ROUNDS as nat, now).0;
    if s.old_list.len() > 0 {
        let n = s.old_list.len();
        assert forall|i: int| 0 <= i < n implies #[trigger] unvisited(s, i, now) by {
            assert(s.old_list.contains(s.old_list[i]));
            assert(s.flows.dom().contains(s.old_list[i]));
        }
        lemma_first_pass(s, n, now);
        let u = old_pass(s, n, now).0;
        lemma_poised_rounds(u, (MAX_DRR_ROUNDS - 1) as nat, now);
        lemma_setting_trans(s, u, t);
    }
    assert forall|k: FlowKey| #[trigger] t.flows.contains_key(k) implies affordable(
        t.flows[k],
        t.quantum as int,
        MAX_DRR_ROUNDS - 1,
    ) && t.flows[k].codel.count < t.interval by {
        assert(t.flows.dom().contains(k));
        assert(t.new_list.contains(k));
        assert(s.new_list.contains(k));
        assert(s.flows.dom().contains(k));
        assert(s.flows.contains_key(k));
    }
}

proof fn lemma_sparse_in_reach(s: SchedState, now: u64)
    requires
        in_reach(s),
        sparse_pass(s, now).1.len() == 0,
    ensures
        ({
            let t = sparse_pass(s, now).0;
            &&& in_reach(t)
            &&& t.new_list.len() > 0 ==> t.new_list.len() < s.new_list.len()
            &&& t.new_list.len() <= s.new_list.len()
        }),
    decreases s.new_list.len(),
{
    if s.new_list.len() > 0 {
        let (t, out) = sparse_turn(s, now);
        let key = s.new_list[0];
        lemma_drop_first(s.new_list);
        assert(s.new_list.contains(key));
        assert(s.flows.dom().contains(key));
        let q = s.flows[key];
        let n = expired_run(q.packets, now) as int;
        lemma_expired_run(q.packets, now);
        let live = q.packets.skip(n);
        lemma_list_push(s.old_list, key);
        assert forall|k: FlowKey| #[trigger] t.flows.dom().contains(k) <==> t.new_list.contains(k)
            || t.old_list.contains(k) by {
            assert(s.flows.dom().contains(k) <==> s.new_list.contains(k) || s.old_list.contains(k));
            assert(!(s.new_list.contains(key) && s.old_list.contains(key)));
        }
        assert forall|k: FlowKey| !(#[trigger] t.new_list.contains(k) && t.old_list.contains(
            k,
        )) by {
            assert(!(s.new_list.contains(k) && s.old_list.contains(k)));
        }
        assert forall|k: FlowKey| #[trigger] t.flows.contains_key(k) implies affordable(
            t.flows[k],
            t.quantum as int,
            MAX_DRR_ROUNDS - 1,
        ) && t.flows[k].codel.count < t.interval by {
            assert(s.flows.contains_key(k));
            if k == key {
                assert forall|i: int| 0 <= i < live.len() implies (#[trigger] live[i]).size()
                    <= q.deficit + (MAX_DRR_ROUNDS - 1) * s.quantum by {
                    assert(live[i] == q.packets[i + n]);
                }
            }
        }
        assert(in_reach(t));
        if out is Gone {
            lemma_sparse_in_reach(t, now);
        }
    }
}

/// An empty answer means that nothing is queued: where no packet costs more than
/// the rounds of one call can grant its flow, `next` answers empty only when there
/// is no packet left.
pub proof fn law_empty_means_empty(s: SchedState, now: u64)
    requires
        in_reach(s),
        next_burst(s, now).1.len() == 0,
    ensures
        next_burst(s, now).0.flows == Map::<FlowKey, FlowState>::empty(),
    decreases s.new_list.len(),
{
    let (t, first) = sparse_pass(s, now);
    lemma_sparse_in_reach(s, now);
    let (u, sent) = old_rounds(t, MAX_DRR_ROUNDS as nat, now);
    lemma_rounds_drain(t, now);
    if u.new_list.len() > 0 {
        law_empty_means_empty(u, now);
    } else {
        assert forall|k: FlowKey| !u.flows.dom().contains(k) by {
            assert(!u.new_list.contains(k));
            assert(!u.old_list.contains(k));
        }
        assert(u.flows =~= Map::empty());
    }
}

} // verus!
