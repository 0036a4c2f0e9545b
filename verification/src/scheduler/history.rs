//! What holds of a scheduler over any run of calls.

use super::{
    balance, DropReason, EnqueueOutcome, PeerScheduler, CAP_PROBE_BOUND, FLOW_PACKET_CAP,
    MAX_ADMITTED, PEER_BYTE_CAP, PEER_PACKET_CAP,
};
use super::books::law_next_is_booked;
use super::flow::expired;
use super::laws::{
    admitted_into, in_order, law_caps, law_flow_order, law_outcome_accounts, lemma_probe, occupied,
    queued, reconciled, suffix,
};
use super::model::{charge_step, enqueue_step, late, next_burst, probe, with_cap, SchedState};
use crate::packet::{FlowKey, LogicalPacket};
use vstd::prelude::*;

verus! {

/// A call and what it gave back.
pub enum Step {
    Enqueue { packet: LogicalPacket, now: u64, out: EnqueueOutcome },
    Next { now: u64, sent: Seq<LogicalPacket> },
    AccountSent { flow: FlowKey, logical_len: usize, wire_len: usize },
    DrainDrops,
}

/// The call takes the scheduler from `a` to `b`.
pub open spec fn takes(a: PeerScheduler, e: Step, b: PeerScheduler) -> bool {
    &&& a.wf()
    &&& b.wf()
    &&& match e {
        Step::Enqueue { packet, now, out } => {
            &&& a.counters.enqueued + a.counters.transport_full < MAX_ADMITTED
            &&& a.counters.drops_cap < u64::MAX
            &&& (b.state(), out) == enqueue_step(a.state(), packet, now)
        },
        Step::Next { now, sent } => {
            &&& (b.state(), sent) == next_burst(a.state(), now)
            &&& balance(b) + sent.len() == balance(a)
        },
        Step::AccountSent { flow, logical_len, wire_len } => b.state() == charge_step(
            a.state(),
            flow,
            logical_len as int,
            wire_len as int,
        ),
        Step::DrainDrops => b.state() == (SchedState {
            reported_codel: a.counters.drops_codel,
            reported_emergency: a.counters.drops_emergency,
            ..a.state()
        }),
    }
}

/// A run of calls on a scheduler that starts out new.
pub open spec fn run(at: Seq<PeerScheduler>, steps: Seq<Step>) -> bool {
    &&& at.len() == steps.len() + 1
    &&& exists|quantum: usize, target: u64, interval: u64|
        at[0].state() == #[trigger] SchedState::start(quantum, target, interval, FLOW_PACKET_CAP)
    &&& forall|i: int| 0 <= i < steps.len() ==> takes(at[i], #[trigger] steps[i], at[i + 1])
}

/// The packets that were admitted, in order.
pub open spec fn admitted(steps: Seq<Step>) -> Seq<LogicalPacket>
    decreases steps.len(),
{
    if steps.len() == 0 {
        Seq::empty()
    } else {
        match steps.last() {
            Step::Enqueue { packet, now: _, out } => if out is Rejected {
                admitted(steps.drop_last())
            } else {
                admitted(steps.drop_last()).push(packet)
            },
            _ => admitted(steps.drop_last()),
        }
    }
}

/// The packets that were returned for sending, in order.
pub open spec fn returned(steps: Seq<Step>) -> Seq<LogicalPacket>
    decreases steps.len(),
{
    if steps.len() == 0 {
        Seq::empty()
    } else {
        match steps.last() {
            Step::Next { now: _, sent } => returned(steps.drop_last()) + sent,
            _ => returned(steps.drop_last()),
        }
    }
}

/// How many packets an arrival evicted, for the given reason.
pub open spec fn evictions(steps: Seq<Step>, why: DropReason) -> int
    decreases steps.len(),
{
    if steps.len() == 0 {
        0
    } else {
        evictions(steps.drop_last(), why) + match steps.last() {
            Step::Enqueue {
                packet: _,
                now: _,
                out: EnqueueOutcome::AcceptedEvicted { reason, evicted_len: _ },
            } => if reason == why {
                1int
            } else {
                0
            },
            _ => 0,
        }
    }
}

/// How many arrivals evicted a packet.
pub open spec fn evicting(steps: Seq<Step>) -> int
    decreases steps.len(),
{
    if steps.len() == 0 {
        0
    } else {
        evicting(steps.drop_last()) + match steps.last() {
            Step::Enqueue { packet: _, now: _, out } => if out is AcceptedEvicted {
                1int
            } else {
                0
            },
            _ => 0,
        }
    }
}

/// The packets of one flow.
pub open spec fn of_flow(s: Seq<LogicalPacket>, k: FlowKey) -> Seq<LogicalPacket> {
    s.filter(|p: LogicalPacket| p.flow == k)
}

/// `at` places each item of `a` in `b`, each behind the one before it.
pub open spec fn placed(at: Seq<int>, a: Seq<LogicalPacket>, b: Seq<LogicalPacket>) -> bool {
    &&& at.len() == a.len()
    &&& forall|i: int|
        0 <= i < a.len() ==> 0 <= #[trigger] at[i] < b.len() && b[at[i]] == a[i]
    &&& forall|i: int, j: int| 0 <= i < j < a.len() ==> #[trigger] at[i] < #[trigger] at[j]
}

/// `a` is `b` less some of its items: in the order of `b`, and none twice.
pub open spec fn subsequence(a: Seq<LogicalPacket>, b: Seq<LogicalPacket>) -> bool {
    exists|at: Seq<int>| placed(at, a, b)
}

/// What a run has done with one flow: its queue is the end of what was admitted,
/// and what was returned comes, in order, from what stood before that end.
pub open spec fn traced(s: SchedState, steps: Seq<Step>, k: FlowKey) -> bool {
    let a = of_flow(admitted(steps), k);
    &&& suffix(queued(s, k), a)
    &&& subsequence(of_flow(returned(steps), k), a.take(a.len() - queued(s, k).len()))
}

proof fn lemma_subsequence_empty(b: Seq<LogicalPacket>)
    ensures
        subsequence(Seq::empty(), b),
{
    assert(placed(Seq::empty(), Seq::empty(), b));
}

/// A subsequence of a prefix is one of a longer prefix.
proof fn lemma_subsequence_grows(a: Seq<LogicalPacket>, b: Seq<LogicalPacket>, n: int, m: int)
    requires
        0 <= n <= m <= b.len(),
        subsequence(a, b.take(n)),
    ensures
        subsequence(a, b.take(m)),
{
    let at = choose|at: Seq<int>| placed(at, a, b.take(n));
    assert forall|i: int| 0 <= i < a.len() implies 0 <= #[trigger] at[i] < b.take(m).len()
        && b.take(m)[at[i]] == a[i] by {
        assert(b.take(n)[at[i]] == a[i]);
    }
    assert(placed(at, a, b.take(m)));
}

/// A subsequence of a prefix and one of the part behind it make one of the whole.
proof fn lemma_subsequence_concat(
    a: Seq<LogicalPacket>,
    x: Seq<LogicalPacket>,
    b: Seq<LogicalPacket>,
    n: int,
    j: int,
    m: int,
)
    requires
        0 <= n <= j <= m <= b.len(),
        subsequence(a, b.take(n)),
        subsequence(x, b.subrange(j, m)),
    ensures
        subsequence(a + x, b.take(m)),
{
    let at = choose|at: Seq<int>| placed(at, a, b.take(n));
    let bt = choose|at: Seq<int>| placed(at, x, b.subrange(j, m));
    let ct = at + Seq::new(bt.len(), |i: int| bt[i] + j);
    assert forall|i: int| 0 <= i < (a + x).len() implies 0 <= #[trigger] ct[i] < b.take(m).len()
        && b.take(m)[ct[i]] == (a + x)[i] by {
        if i < a.len() {
            assert(ct[i] == at[i]);
            assert(b.take(n)[at[i]] == a[i]);
        } else {
            let h = i - a.len();
            assert(ct[i] == bt[h] + j);
            assert(b.subrange(j, m)[bt[h]] == x[h]);
        }
    }
    assert forall|i: int, h: int| 0 <= i < h < (a + x).len() implies #[trigger] ct[i]
        < #[trigger] ct[h] by {
        if h < a.len() {
            assert(ct[i] == at[i] && ct[h] == at[h]);
        } else if i < a.len() {
            assert(ct[i] == at[i]);
            assert(ct[h] == bt[h - a.len()] + j);
            assert(at[i] < b.take(n).len());
            assert(bt[h - a.len()] >= 0);
        } else {
            assert(ct[i] == bt[i - a.len()] + j);
            assert(ct[h] == bt[h - a.len()] + j);
        }
    }
    assert(placed(ct, a + x, b.take(m)));
}

/// What a filter keeps is a subsequence.
proof fn lemma_filter_subsequence(s: Seq<LogicalPacket>, f: spec_fn(LogicalPacket) -> bool)
    ensures
        subsequence(s.filter(f), s),
    decreases s.len(),
{
    reveal(Seq::filter);
    if s.len() == 0 {
        lemma_subsequence_empty(s);
        assert(s.filter(f) =~= Seq::empty());
    } else {
        let n = s.len() - 1;
        lemma_filter_subsequence(s.drop_last(), f);
        assert(s.drop_last() =~= s.take(n));
        assert(s.take(s.len() as int) =~= s);
        if f(s.last()) {
            let one = seq![s.last()];
            assert(s.subrange(n, s.len() as int) =~= one);
            assert(placed(seq![0int], one, one));
            lemma_subsequence_concat(s.drop_last().filter(f), one, s, n, n, s.len() as int);
            assert(s.drop_last().filter(f) + one =~= s.filter(f));
        } else {
            lemma_subsequence_grows(s.drop_last().filter(f), s, n, s.len() as int);
        }
    }
}

/// What a filter keeps passes it.
proof fn lemma_filter_passes(s: Seq<LogicalPacket>, f: spec_fn(LogicalPacket) -> bool)
    ensures
        forall|i: int| 0 <= i < s.filter(f).len() ==> f(#[trigger] s.filter(f)[i]),
    decreases s.len(),
{
    reveal(Seq::filter);
    if s.len() > 0 {
        lemma_filter_passes(s.drop_last(), f);
    }
}

proof fn lemma_of_flow_push(s: Seq<LogicalPacket>, p: LogicalPacket, k: FlowKey)
    ensures
        of_flow(s.push(p), k) == (if p.flow == k {
            of_flow(s, k).push(p)
        } else {
            of_flow(s, k)
        }),
{
    reveal(Seq::filter);
    assert(s.push(p).drop_last() =~= s);
}

/// The packets of a flow in what one flow sent.
proof fn lemma_of_flow_sent(
    r: Seq<LogicalPacket>,
    sent: Seq<LogicalPacket>,
    from: FlowKey,
    k: FlowKey,
)
    requires
        forall|i: int| 0 <= i < sent.len() ==> (#[trigger] sent[i]).flow == from,
    ensures
        of_flow(r + sent, k) == (if k == from {
            of_flow(r, k) + sent
        } else {
            of_flow(r, k)
        }),
    decreases sent.len(),
{
    if sent.len() == 0 {
        assert(r + sent =~= r);
        assert(of_flow(r, k) + sent =~= of_flow(r, k));
    } else {
        let t = sent.drop_last();
        lemma_of_flow_sent(r, t, from, k);
        assert(r + sent =~= (r + t).push(sent.last()));
        lemma_of_flow_push(r + t, sent.last(), k);
        assert(sent[sent.len() - 1].flow == from);
        assert((of_flow(r, k) + t).push(sent.last()) =~= of_flow(r, k) + sent);
    }
}

/// Every packet of a burst is of the flow it came from.
proof fn lemma_burst_flow(
    s: SchedState,
    t: SchedState,
    steps: Seq<Step>,
    now: u64,
    k: FlowKey,
    j: int,
    sent: Seq<LogicalPacket>,
)
    requires
        traced(s, steps, k),
        in_order(s, t, k, j, sent, now),
    ensures
        forall|i: int| 0 <= i < sent.len() ==> (#[trigger] sent[i]).flow == k,
{
    let a = of_flow(admitted(steps), k);
    let q = queued(s, k);
    let m = q.len() - queued(t, k).len();
    let sub = q.subrange(j, m);
    lemma_filter_passes(admitted(steps), |p: LogicalPacket| p.flow == k);
    lemma_filter_subsequence(sub, |p: LogicalPacket| !expired(p, now));
    let at = choose|at: Seq<int>| placed(at, sent, sub);
    assert forall|i: int| 0 <= i < sent.len() implies (#[trigger] sent[i]).flow == k by {
        let h = at[i];
        assert(sub[h] == sent[i]);
        assert(sub[h] == q[j + h]);
        assert(q[j + h] == a[a.len() - q.len() + j + h]);
    }
}

proof fn lemma_traced_enqueue(
    s: SchedState,
    t: SchedState,
    steps: Seq<Step>,
    p: LogicalPacket,
    now: u64,
    out: EnqueueOutcome,
    k: FlowKey,
)
    requires
        traced(s, steps, k),
        admitted_into(s, t, p, out),
    ensures
        traced(t, steps.push(Step::Enqueue { packet: p, now, out }), k),
{
    let more = steps.push(Step::Enqueue { packet: p, now, out });
    assert(more.drop_last() =~= steps);
    let a = of_flow(admitted(steps), k);
    let b = of_flow(admitted(more), k);
    lemma_of_flow_push(admitted(steps), p, k);
    let qs = queued(s, k);
    let qt = queued(t, k);
    if out is Rejected {
    } else if k == p.flow {
        let d = qt.drop_last();
        assert(suffix(d, qs));
        assert(d.push(p) =~= qt);
        assert(d =~= a.skip(a.len() - d.len()));
        assert(qt =~= b.skip(b.len() - qt.len()));
        lemma_subsequence_grows(
            of_flow(returned(steps), k),
            a,
            a.len() - qs.len(),
            a.len() - d.len(),
        );
        assert(b.take(b.len() - qt.len()) =~= a.take(a.len() - d.len()));
    } else {
        assert(suffix(qt, qs));
        assert(qt =~= a.skip(a.len() - qt.len()));
        lemma_subsequence_grows(
            of_flow(returned(steps), k),
            a,
            a.len() - qs.len(),
            a.len() - qt.len(),
        );
    }
}

proof fn lemma_traced_next(
    s: SchedState,
    t: SchedState,
    steps: Seq<Step>,
    now: u64,
    sent: Seq<LogicalPacket>,
    from: FlowKey,
    j: int,
    k: FlowKey,
)
    requires
        traced(s, steps, k),
        suffix(queued(t, k), queued(s, k)),
        sent.len() > 0 ==> traced(s, steps, from) && in_order(s, t, from, j, sent, now),
    ensures
        traced(t, steps.push(Step::Next { now, sent }), k),
{
    let more = steps.push(Step::Next { now, sent });
    assert(more.drop_last() =~= steps);
    let a = of_flow(admitted(steps), k);
    let r = of_flow(returned(steps), k);
    let qs = queued(s, k);
    let qt = queued(t, k);
    let o = a.len() - qs.len();
    assert(qt =~= a.skip(a.len() - qt.len()));
    if sent.len() > 0 {
        lemma_burst_flow(s, t, steps, now, from, j, sent);
        lemma_of_flow_sent(returned(steps), sent, from, k);
    } else {
        assert(returned(steps) + sent =~= returned(steps));
    }
    if sent.len() > 0 && k == from {
        let m = qs.len() - qt.len();
        assert(qs.subrange(j, m) =~= a.subrange(o + j, o + m));
        lemma_filter_subsequence(qs.subrange(j, m), |p: LogicalPacket| !expired(p, now));
        lemma_subsequence_concat(r, sent, a, o, o + j, o + m);
    } else {
        lemma_subsequence_grows(r, a, o, a.len() - qt.len());
    }
}

/// What a run keeps: the caps, a packet in every flow, the packet count, and the
/// order of every flow.
pub open spec fn kept(s: PeerScheduler, steps: Seq<Step>) -> bool {
    &&& s.packets <= PEER_PACKET_CAP
    &&& s.bytes <= PEER_BYTE_CAP
    &&& s.flow_packet_cap == FLOW_PACKET_CAP
    &&& occupied(s.state())
    &&& s.counters.enqueued == returned(steps).len() + s.packets + s.counters.drops_codel
        + s.counters.drops_emergency + evictions(steps, DropReason::FlowCap)
    &&& evicting(steps) == evictions(steps, DropReason::FlowCap) + evictions(
        steps,
        DropReason::EmergencyCeiling,
    )
    &&& s.counters.enqueued == admitted(steps).len()
    &&& forall|k: FlowKey| #[trigger] traced(s.state(), steps, k)
}

proof fn lemma_kept_step(a: PeerScheduler, steps: Seq<Step>, e: Step, b: PeerScheduler)
    requires
        kept(a, steps),
        takes(a, e, b),
    ensures
        kept(b, steps.push(e)),
{
    let more = steps.push(e);
    assert(more.drop_last() =~= steps);
    let (s, t) = (a.state(), b.state());
    match e {
        Step::Enqueue { packet, now, out } => {
            law_outcome_accounts(s, packet, now);
            law_caps(s, packet, now);
            assert(reconciled(s, t, packet, out));
            assert forall|k: FlowKey| #[trigger] traced(t, more, k) by {
                assert(traced(s, steps, k));
                lemma_traced_enqueue(s, t, steps, packet, now, out, k);
            }
        },
        Step::Next { now, sent } => {
            law_next_is_booked(s, now);
            law_flow_order(s, now);
            let (from, j) = choose|k: FlowKey, j: int| in_order(s, t, k, j, sent, now);
            assert(traced(s, steps, from));
            assert forall|k: FlowKey| #[trigger] traced(t, more, k) by {
                assert(traced(s, steps, k));
                assert(suffix(queued(t, k), queued(s, k)));
                lemma_traced_next(s, t, steps, now, sent, from, j, k);
            }
        },
        _ => {
            assert forall|k: FlowKey| #[trigger] queued(t, k) == queued(s, k) by {}
            assert forall|k: FlowKey| #[trigger] traced(t, more, k) by {
                assert(traced(s, steps, k));
                assert(queued(t, k) == queued(s, k));
            }
        },
    }
}

proof fn lemma_kept(at: Seq<PeerScheduler>, steps: Seq<Step>)
    requires
        run(at, steps),
    ensures
        kept(at.last(), steps),
    decreases steps.len(),
{
    if steps.len() == 0 {
        let s = at[0].state();
        reveal(Seq::filter);
        assert forall|k: FlowKey| #[trigger] traced(s, steps, k) by {
            let a = of_flow(admitted(steps), k);
            assert(queued(s, k) =~= a.skip(0));
            assert(of_flow(returned(steps), k) =~= Seq::empty());
            lemma_subsequence_empty(a.take(0));
        }
    } else {
        let n = steps.len() - 1;
        let (before, earlier) = (at.drop_last(), steps.drop_last());
        assert forall|i: int| 0 <= i < earlier.len() implies takes(
            before[i],
            #[trigger] earlier[i],
            before[i + 1],
        ) by {
            assert(takes(at[i], steps[i], at[i + 1]));
        }
        assert(before[0] == at[0]);
        lemma_kept(before, earlier);
        assert(takes(at[n], steps[n], at[n + 1]));
        lemma_kept_step(before.last(), earlier, steps[n], at[n + 1]);
        assert(earlier.push(steps[n]) =~= steps);
    }
}

/// Whatever is called on a scheduler, in whatever order, the peer's memory stays
/// within its caps.
pub proof fn law_memory_is_bounded(at: Seq<PeerScheduler>, steps: Seq<Step>)
    requires
        run(at, steps),
    ensures
        at.last().packets <= PEER_PACKET_CAP,
        at.last().bytes <= PEER_BYTE_CAP,
{
    lemma_kept(at, steps);
}

/// Within a flow packets are returned in the order in which they were enqueued,
/// none twice and none that was not admitted.
pub proof fn law_order_over_a_run(at: Seq<PeerScheduler>, steps: Seq<Step>, k: FlowKey)
    requires
        run(at, steps),
    ensures
        subsequence(of_flow(returned(steps), k), of_flow(admitted(steps), k)),
        queued(at.last().state(), k).len() > 0 ==> suffix(
            queued(at.last().state(), k),
            of_flow(admitted(steps), k),
        ),
{
    lemma_kept(at, steps);
    let a = of_flow(admitted(steps), k);
    assert(traced(at.last().state(), steps, k));
    lemma_subsequence_grows(
        of_flow(returned(steps), k),
        a,
        a.len() - queued(at.last().state(), k).len(),
        a.len() as int,
    );
    assert(a.take(a.len() as int) =~= a);
}

/// Every packet that was admitted is accounted for: it was returned, is still
/// queued, was dropped by CoDel or at the ceiling, or made room for a later packet
/// of its own flow. A packet past the ceiling that made room for a later one is among
/// those dropped at the ceiling, so that it is counted once.
pub proof fn law_conservation_over_a_run(at: Seq<PeerScheduler>, steps: Seq<Step>)
    requires
        run(at, steps),
    ensures
        at.last().counters.enqueued == admitted(steps).len(),
        at.last().counters.enqueued == returned(steps).len() + at.last().packets
            + at.last().counters.drops_codel + at.last().counters.drops_emergency + evicting(steps)
            - evictions(steps, DropReason::EmergencyCeiling),
{
    lemma_kept(at, steps);
}

/// A burst that is returned at the end of a run holds packets of one flow.
pub proof fn law_burst_is_of_one_flow(at: Seq<PeerScheduler>, steps: Seq<Step>, now: u64)
    requires
        run(at, steps),
        next_burst(at.last().state(), now).1.len() > 0,
    ensures
        exists|k: FlowKey| #[trigger]
            of_flow(next_burst(at.last().state(), now).1, k) == next_burst(
                at.last().state(),
                now,
            ).1,
{
    lemma_kept(at, steps);
    let s = at.last().state();
    let (t, sent) = next_burst(s, now);
    law_flow_order(s, now);
    let (k, j) = choose|k: FlowKey, j: int| in_order(s, t, k, j, sent, now);
    assert(traced(s, steps, k));
    lemma_burst_flow(s, t, steps, now, k, j, sent);
    lemma_of_flow_sent(Seq::empty(), sent, k, k);
    reveal(Seq::filter);
    assert(Seq::<LogicalPacket>::empty() + sent =~= sent);
    assert(of_flow(Seq::empty(), k) + sent =~= sent);
}

/// Without a head past the ceiling, a packet is rejected exactly where the peer is
/// at its packet cap or the packet does not fit the byte cap, with that reason; a
/// rejection changes no level and no counter but that of the cap drops.
pub proof fn law_rejection(s: SchedState, p: LogicalPacket, now: u64)
    requires
        occupied(s),
        s.flow_packet_cap >= 1,
        forall|k: FlowKey| #[trigger]
            s.flows.contains_key(k) ==> !expired(s.flows[k].packets[0], now),
    ensures
        ({
            let (t, out) = enqueue_step(s, p, now);
            &&& out is Rejected <==> s.packets >= PEER_PACKET_CAP || s.bytes + p.size()
                > PEER_BYTE_CAP
            &&& out matches EnqueueOutcome::Rejected { reason } ==> reason == (if s.packets
                >= PEER_PACKET_CAP {
                DropReason::PeerPacketCap
            } else {
                DropReason::PeerByteCap
            })
            &&& out is Rejected ==> t.packets == s.packets && t.bytes == s.bytes && t.flows
                == s.flows && t.counters == with_cap(s.counters)
        }),
{
    law_outcome_accounts(s, p, now);
    lemma_probe(s, CAP_PROBE_BOUND as nat, now);
    let (t, found) = probe(s, CAP_PROBE_BOUND as nat, now);
    if found is Some {
        assert(late(t, found->0, now));
        assert(s.flows.contains_key(found->0));
    }
}

/// The same of every state that a run of calls comes to, where no queued packet is past
/// the ceiling; and whatever arrives, the caps hold after it.
pub proof fn law_rejection_over_a_run(
    at: Seq<PeerScheduler>,
    steps: Seq<Step>,
    p: LogicalPacket,
    now: u64,
)
    requires
        run(at, steps),
        forall|k: FlowKey, i: int|
            0 <= i < queued(at.last().state(), k).len() ==> !expired(
                #[trigger] queued(at.last().state(), k)[i],
                now,
            ),
    ensures
        ({
            let s = at.last();
            let (t, out) = enqueue_step(s.state(), p, now);
            &&& out is Rejected <==> s.packets >= PEER_PACKET_CAP || s.bytes + p.size()
                > PEER_BYTE_CAP
            &&& out matches EnqueueOutcome::Rejected { reason } ==> reason == (if s.packets
                >= PEER_PACKET_CAP {
                DropReason::PeerPacketCap
            } else {
                DropReason::PeerByteCap
            })
            &&& out is Rejected ==> t.packets == s.packets && t.bytes == s.bytes && t.flows
                == s.state().flows && t.counters == with_cap(s.counters)
            &&& t.packets <= PEER_PACKET_CAP
            &&& t.bytes <= PEER_BYTE_CAP
        }),
{
    lemma_kept(at, steps);
    let s = at.last().state();
    assert forall|k: FlowKey| #[trigger] s.flows.contains_key(k) implies !expired(
        s.flows[k].packets[0],
        now,
    ) by {
        assert(queued(s, k)[0] == s.flows[k].packets[0]);
    }
    law_rejection(s, p, now);
    law_caps(s, p, now);
}

} // verus!
