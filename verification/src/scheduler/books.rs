//! What a service opportunity does to the gauges, and what requeueing undoes.

use super::{balance, PeerScheduler, SchedCounters, MAX_DRR_ROUNDS};
use super::flow::{
    expired, expired_run, lemma_expired_run, lemma_old_visit, old_visit, sparse_visit, FlowState,
    SparseVisit,
};
use super::laws::{law_requeue_restores, occupied, queued, requeue_all};
use super::model::{
    next_burst, old_pass, old_rounds, old_turn, settle, sparse_pass, sparse_turn, SchedState,
    SparseTurn,
};
use crate::packet::{lemma_total_push, lemma_total_split, total_size, FlowKey, LogicalPacket};
use crate::table::lemma_key_count;
use vstd::prelude::*;

verus! {

/// Flow `k` lost exactly `sent` from its front, and no other flow lost anything.
pub open spec fn took_from(s: SchedState, t: SchedState, k: FlowKey, sent: Seq<LogicalPacket>) -> bool {
    &&& queued(s, k) == sent + queued(t, k)
    &&& forall|x: FlowKey| x != k ==> #[trigger] queued(t, x) == queued(s, x)
}

/// Nothing but `sent` left a queue.
pub open spec fn lossless(s: SchedState, t: SchedState, sent: Seq<LogicalPacket>) -> bool {
    &&& t.bytes + total_size(sent) == s.bytes
    &&& sent.len() == 0 ==> forall|x: FlowKey| #[trigger] queued(t, x) == queued(s, x)
    &&& sent.len() > 0 ==> exists|k: FlowKey| took_from(s, t, k, sent)
}

/// The gauges cover what was sent; settings and the other counters are as they
/// were; where the packet count fell by no more than what was sent, nothing was
/// discarded.
pub open spec fn booked(s: SchedState, t: SchedState, sent: Seq<LogicalPacket>) -> bool {
    &&& t == (SchedState {
        flows: t.flows,
        new_list: t.new_list,
        old_list: t.old_list,
        bytes: t.bytes,
        packets: t.packets,
        counters: t.counters,
        ..s
    })
    &&& t.counters == (SchedCounters {
        drops_codel: t.counters.drops_codel,
        drops_emergency: t.counters.drops_emergency,
        ..s.counters
    })
    &&& t.packets + sent.len() <= s.packets
    &&& t.bytes + total_size(sent) <= s.bytes
    &&& occupied(s) ==> occupied(t)
    &&& t.packets + sent.len() == s.packets ==> lossless(s, t, sent)
}

/// Filtering keeps no more than there is, and all of it only where it drops
/// nothing.
pub proof fn lemma_filter_books(s: Seq<LogicalPacket>, f: spec_fn(LogicalPacket) -> bool)
    ensures
        s.filter(f).len() <= s.len(),
        total_size(s.filter(f)) <= total_size(s),
        s.filter(f).len() == s.len() ==> s.filter(f) == s,
    decreases s.len(),
{
    reveal(Seq::filter);
    if s.len() > 0 {
        lemma_filter_books(s.drop_last(), f);
        lemma_total_push(s.drop_last(), s.last());
        lemma_total_push(s.drop_last().filter(f), s.last());
        assert(s.drop_last().push(s.last()) =~= s);
    } else {
        assert(s.filter(f) =~= s);
    }
}

proof fn lemma_booked_refl(s: SchedState)
    ensures
        booked(s, s, Seq::empty()),
{
    assert(total_size(Seq::<LogicalPacket>::empty()) == 0);
}

/// One queue loses its first packets, of which `sent` are sent.
proof fn lemma_settled(
    s: SchedState,
    t: SchedState,
    key: FlowKey,
    q: FlowState,
    sent: Seq<LogicalPacket>,
)
    requires
        s.flows.contains_key(key),
        q.packets.len() <= s.flows[key].packets.len(),
        q.packets == s.flows[key].packets.skip(s.flows[key].packets.len() - q.packets.len()),
        ({
            let gone = s.flows[key].packets.take(s.flows[key].packets.len() - q.packets.len());
            &&& sent.len() <= gone.len()
            &&& total_size(sent) <= total_size(gone)
            &&& sent.len() == gone.len() ==> sent == gone
        }),
        t == (SchedState {
            new_list: t.new_list,
            old_list: t.old_list,
            counters: t.counters,
            ..settle(s, key, q)
        }),
        t.counters == (SchedCounters {
            drops_codel: t.counters.drops_codel,
            drops_emergency: t.counters.drops_emergency,
            ..s.counters
        }),
    ensures
        booked(s, t, sent),
{
    let was = s.flows[key].packets;
    let m = was.len() - q.packets.len();
    assert(was.take(m) + q.packets =~= was);
    lemma_total_split(was.take(m), q.packets);
    assert(queued(t, key) =~= q.packets);
    assert forall|x: FlowKey| x != key implies #[trigger] queued(t, x) == queued(s, x) by {}
    if t.packets + sent.len() == s.packets {
        if sent.len() > 0 {
            assert(took_from(s, t, key, sent));
        } else {
            assert(q.packets =~= was);
        }
    }
}

/// A step that sends nothing, then one that sends `sent`.
proof fn lemma_booked_trans(s: SchedState, t: SchedState, u: SchedState, sent: Seq<LogicalPacket>)
    requires
        booked(s, t, Seq::empty()),
        booked(t, u, sent),
    ensures
        booked(s, u, sent),
{
    assert(total_size(Seq::<LogicalPacket>::empty()) == 0);
    if u.packets + sent.len() == s.packets && sent.len() > 0 {
        let k = choose|k: FlowKey| took_from(t, u, k, sent);
        assert(queued(t, k) == queued(s, k));
        assert forall|x: FlowKey| x != k implies #[trigger] queued(u, x) == queued(s, x) by {
            assert(queued(u, x) == queued(t, x));
        }
        assert(took_from(s, u, k, sent));
    } else if u.packets + sent.len() == s.packets {
        assert forall|x: FlowKey| #[trigger] queued(u, x) == queued(s, x) by {
            assert(queued(u, x) == queued(t, x));
        }
    }
}

proof fn lemma_old_turn_booked(s: SchedState, now: u64)
    ensures
        booked(s, old_turn(s, now).0, old_turn(s, now).1),
{
    let key = s.old_list[0];
    let (t, sent) = old_turn(s, now);
    if s.flows.contains_key(key) {
        let q = s.flows[key];
        lemma_old_visit(q, s.quantum as int, s.target, s.interval, now);
        let v = old_visit(q, s.quantum as int, s.target, s.interval, now);
        let gone = q.packets.take(q.packets.len() - v.q.packets.len());
        lemma_filter_books(gone, |p: LogicalPacket| !expired(p, now));
        if sent.len() == 0 {
            assert(total_size(sent) == 0);
            assert(gone.len() == 0 ==> sent =~= gone);
        }
        lemma_settled(s, t, key, v.q, sent);
    } else {
        lemma_booked_refl(s);
        assert forall|x: FlowKey| #[trigger] queued(t, x) == queued(s, x) by {}
    }
}

proof fn lemma_sparse_turn_booked(s: SchedState, now: u64)
    ensures
        ({
            let (t, out) = sparse_turn(s, now);
            booked(
                s,
                t,
                match out {
                    SparseTurn::Sent(p) => seq![p],
                    _ => Seq::empty(),
                },
            )
        }),
{
    let key = s.new_list[0];
    let (t, out) = sparse_turn(s, now);
    assert(total_size(Seq::<LogicalPacket>::empty()) == 0);
    if s.flows.contains_key(key) {
        let q = s.flows[key];
        let n = expired_run(q.packets, now) as int;
        let live = q.packets.skip(n);
        lemma_expired_run(q.packets, now);
        let (v, _) = sparse_visit(q, s.quantum as int, now);
        match v {
            SparseVisit::Gone => {
                let e = FlowState { packets: Seq::empty(), ..q };
                assert(q.packets.skip(q.packets.len() as int) =~= e.packets);
                assert(q.packets.take(q.packets.len() as int).len() == 0 ==> q.packets.take(
                    q.packets.len() as int,
                ) =~= Seq::empty());
                lemma_settled(s, t, key, e, Seq::empty());
            },
            SparseVisit::Demoted(q2) => {
                assert(q.packets.take(n).len() == 0 ==> q.packets.take(n) =~= Seq::empty());
                lemma_settled(s, t, key, q2, Seq::empty());
            },
            SparseVisit::Sent(q2, p) => {
                assert(q2.packets =~= q.packets.skip(n + 1));
                let gone = q.packets.take(n + 1);
                assert(gone =~= q.packets.take(n).push(p));
                lemma_total_push(q.packets.take(n), p);
                lemma_total_push(Seq::empty(), p);
                assert(Seq::<LogicalPacket>::empty().push(p) =~= seq![p]);
                assert(gone.len() == 1 ==> gone =~= seq![p]);
                lemma_settled(s, t, key, q2, seq![p]);
            },
        }
    } else {
        assert forall|x: FlowKey| #[trigger] queued(t, x) == queued(s, x) by {}
    }
}

proof fn lemma_sparse_pass_booked(s: SchedState, now: u64)
    ensures
        booked(s, sparse_pass(s, now).0, sparse_pass(s, now).1),
    decreases s.new_list.len(),
{
    if s.new_list.len() == 0 {
        lemma_booked_refl(s);
    } else {
        lemma_sparse_turn_booked(s, now);
        let (t, out) = sparse_turn(s, now);
        if out is Gone {
            lemma_sparse_pass_booked(t, now);
            lemma_booked_trans(s, t, sparse_pass(t, now).0, sparse_pass(t, now).1);
        }
    }
}

proof fn lemma_old_pass_booked(s: SchedState, n: nat, now: u64)
    ensures
        booked(s, old_pass(s, n, now).0, old_pass(s, n, now).1),
    decreases n,
{
    if n == 0 || s.old_list.len() == 0 {
        lemma_booked_refl(s);
    } else {
        lemma_old_turn_booked(s, now);
        let (t, sent) = old_turn(s, now);
        if sent.len() == 0 {
            assert(sent =~= Seq::empty());
            let m = (n - 1) as nat;
            lemma_old_pass_booked(t, m, now);
            lemma_booked_trans(s, t, old_pass(t, m, now).0, old_pass(t, m, now).1);
        }
    }
}

proof fn lemma_old_rounds_booked(s: SchedState, r: nat, now: u64)
    ensures
        booked(s, old_rounds(s, r, now).0, old_rounds(s, r, now).1),
    decreases r,
{
    if r == 0 || s.old_list.len() == 0 {
        lemma_booked_refl(s);
    } else {
        let n = s.old_list.len();
        lemma_old_pass_booked(s, n, now);
        let (t, sent) = old_pass(s, n, now);
        if sent.len() == 0 {
            assert(sent =~= Seq::empty());
            let m = (r - 1) as nat;
            lemma_old_rounds_booked(t, m, now);
            lemma_booked_trans(s, t, old_rounds(t, m, now).0, old_rounds(t, m, now).1);
        }
    }
}

/// A service opportunity never raises a gauge, takes what it sends off the books,
/// and leaves every setting and every counter but the two drop counters as it was.
pub proof fn law_next_is_booked(s: SchedState, now: u64)
    ensures
        booked(s, next_burst(s, now).0, next_burst(s, now).1),
    decreases s.new_list.len(),
{
    lemma_sparse_pass_booked(s, now);
    let (t, first) = sparse_pass(s, now);
    if first.len() == 0 {
        assert(first =~= Seq::empty());
        lemma_old_rounds_booked(t, MAX_DRR_ROUNDS as nat, now);
        let (u, sent) = old_rounds(t, MAX_DRR_ROUNDS as nat, now);
        lemma_booked_trans(s, t, u, sent);
        if sent.len() == 0 && u.old_list.len() == 0 && 0 < u.new_list.len() < s.new_list.len() {
            assert(sent =~= Seq::empty());
            law_next_is_booked(u, now);
            lemma_booked_trans(s, u, next_burst(u, now).0, next_burst(u, now).1);
        }
    }
}

/// A burst that is taken and then requeued whole leaves the levels (packets,
/// bytes, flows) and every queue as they were, where the call that took it dropped
/// nothing. `a` is the scheduler before the burst, `b` after it, `c` with the burst
/// put back in the flow it came from.
pub proof fn law_dequeue_then_requeue_restores_levels(
    a: PeerScheduler,
    b: PeerScheduler,
    c: PeerScheduler,
    now: u64,
    k: FlowKey,
)
    requires
        a.wf(),
        b.wf(),
        c.wf(),
        b.state() == next_burst(a.state(), now).0,
        balance(b) + next_burst(a.state(), now).1.len() == balance(a),
        b.counters.drops_codel == a.counters.drops_codel,
        b.counters.drops_emergency == a.counters.drops_emergency,
        next_burst(a.state(), now).1.len() > 0,
        next_burst(a.state(), now).1[0] == queued(a.state(), k)[0],
        queued(a.state(), k).len() > queued(b.state(), k).len(),
        c.state() == requeue_all(b.state(), k, next_burst(a.state(), now).1),
    ensures
        c.packets == a.packets,
        c.bytes == a.bytes,
        c.flows.entries@.len() == a.flows.entries@.len(),
        forall|x: FlowKey| #[trigger] queued(c.state(), x) == queued(a.state(), x),
{
    let (t, sent) = next_burst(a.state(), now);
    law_next_is_booked(a.state(), now);
    law_requeue_restores(t, k, sent);
    let from = choose|x: FlowKey| took_from(a.state(), t, x, sent);
    if from != k {
        assert(queued(t, k) == queued(a.state(), k));
    }
    assert(queued(c.state(), k) == queued(a.state(), k));
    assert forall|x: FlowKey| #[trigger] queued(c.state(), x) == queued(a.state(), x) by {
        if x != k {
            assert(queued(t, x) == queued(a.state(), x));
        }
    }
    assert forall|x: FlowKey| #[trigger] c.flows@.dom().contains(x) == a.flows@.dom().contains(x) by {
        assert(queued(c.state(), x) == queued(a.state(), x));
        if c.flows@.dom().contains(x) {
            assert(queued(c.state(), x) == c.flows@[x].packets@);
        }
        if a.flows@.dom().contains(x) {
            assert(queued(a.state(), x) == a.flows@[x].packets@);
        }
    }
    assert(c.flows@.dom() =~= a.flows@.dom());
    lemma_key_count(a.flows.entries@);
    lemma_key_count(c.flows.entries@);
}

} // verus!
