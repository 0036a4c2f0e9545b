//! Who is served next, what a turn costs, and where an arrival is put.

use super::{flow_cap_of, DropReason, EnqueueOutcome, SchedCounters, MAX_DRR_ROUNDS};
use super::flow::{expired_run, lemma_drain_deficit, old_visit, FlowState};
use super::history::law_rejection;
use super::laws::{occupied, queued};
use super::model::{
    charge_step, enqueue_step, evict, next_burst, old_pass, old_rounds, old_turn, probe,
    requeue_step, sparse_pass, sparse_turn, SchedState,
};
use crate::numerals::{law_decimal_numbers, law_other_texts_are_no_numbers, lemma_numeral, numeral};
use crate::packet::{FlowKey, LogicalPacket};
use vstd::prelude::*;

verus! {

/// A sparse flow goes before all backlogged ones: the first in line whose head has waited
/// for at most 25 ms, and that has sent less than 16 KiB so far, sends that head, alone. It
/// is credited one quantum and pays for what it sends. It stays first while it is sparse;
/// from 16 KiB on it joins the rotation, last.
pub proof fn law_sparse_flow_goes_first(s: SchedState, now: u64, k: FlowKey)
    requires
        s.new_list.len() > 0,
        s.new_list[0] == k,
        s.flows.contains_key(k),
        s.flows[k].packets.len() > 0,
        s.flows[k].sparse,
        s.flows[k].epoch < 16_384,
        now <= s.flows[k].packets[0].enqueued_at + 25_000_000,
    ensures
        ({
            let q = s.flows[k];
            let head = q.packets[0];
            let (t, sent) = next_burst(s, now);
            let sparse = q.epoch + head.size() < 16_384;
            &&& sent == seq![head]
            &&& t.packets == s.packets - 1
            &&& queued(t, k) == q.packets.drop_first()
            &&& forall|x: FlowKey| x != k ==> #[trigger] queued(t, x) == queued(s, x)
            &&& q.packets.len() == 1 ==> !t.flows.contains_key(k) && t.new_list
                == s.new_list.drop_first() && t.old_list == s.old_list
            &&& q.packets.len() > 1 ==> {
                &&& t.flows[k].deficit == q.deficit + s.quantum - head.size()
                &&& t.flows[k].sparse == sparse
                &&& sparse ==> t.new_list == s.new_list && t.old_list == s.old_list
                    && t.flows[k].epoch == q.epoch + head.size()
                &&& !sparse ==> t.new_list == s.new_list.drop_first() && t.old_list
                    == s.old_list.push(k)
            }
        }),
{
    let q = s.flows[k];
    q.packets[0].lemma_size();
    assert(q.packets.skip(0) =~= q.packets);
    assert(expired_run(q.packets, now) == 0);
    let (t, sent) = next_burst(s, now);
    assert(seq![k] + s.new_list.drop_first() =~= s.new_list);
    assert(queued(t, k) =~= q.packets.drop_first());
}

/// A flow that is no longer sparse, because it has sent 16 KiB or its head has waited for
/// more than 25 ms, sends nothing as a sparse one: it joins the rotation, last, with all
/// its packets.
pub proof fn law_busy_flow_joins_the_rotation(s: SchedState, now: u64, k: FlowKey)
    requires
        s.new_list.len() > 0,
        s.new_list[0] == k,
        s.flows.contains_key(k),
        s.flows[k].packets.len() > 0,
        now <= s.flows[k].packets[0].enqueued_at + 1_000_000_000,
        s.flows[k].epoch >= 16_384 || now > s.flows[k].packets[0].enqueued_at + 25_000_000,
    ensures
        ({
            let t = sparse_turn(s, now).0;
            &&& sparse_pass(s, now).1.len() == 0
            &&& t.old_list == s.old_list.push(k)
            &&& t.new_list == s.new_list.drop_first()
            &&& queued(t, k) == s.flows[k].packets
            &&& t.flows[k].deficit == s.flows[k].deficit
            &&& !t.flows[k].sparse
            &&& t.packets == s.packets
            &&& t.bytes == s.bytes
        }),
{
    let q = s.flows[k];
    assert(q.packets.skip(0) =~= q.packets);
    assert(expired_run(q.packets, now) == 0);
}

/// The flow whose turn it is in the rotation, with a young head that one more quantum pays
/// for, sends from that head on, and the burst costs no more than its credit.
pub proof fn law_backlogged_flow_is_served(s: SchedState, now: u64, k: FlowKey)
    requires
        s.new_list.len() == 0,
        s.old_list.len() > 0,
        s.old_list[0] == k,
        s.flows.contains_key(k),
        s.flows[k].packets.len() > 0,
        s.target > 0,
        now < s.flows[k].packets[0].enqueued_at + s.target,
        now <= s.flows[k].packets[0].enqueued_at + 1_000_000_000,
        s.flows[k].packets[0].size() <= s.flows[k].deficit + s.quantum,
    ensures
        ({
            let (t, sent) = next_burst(s, now);
            &&& sent.len() > 0
            &&& sent[0] == s.flows[k].packets[0]
            &&& crate::packet::total_size(sent) <= s.flows[k].deficit + s.quantum
            &&& t.flows.contains_key(k) ==> t.flows[k].deficit == s.flows[k].deficit + s.quantum
                - crate::packet::total_size(sent) && t.flows[k].deficit
                < t.flows[k].packets[0].size()
            &&& forall|x: FlowKey| x != k && s.flows.contains_key(x) ==> t.flows.contains_key(x)
                && #[trigger] t.flows[x] == s.flows[x]
        }),
{
    let q = s.flows[k];
    assert(q.packets.skip(0) =~= q.packets);
    assert(expired_run(q.packets, now) == 0);
    lemma_drain_deficit(q.packets, q.deficit + s.quantum, now);
    let v = old_visit(q, s.quantum as int, s.target, s.interval, now);
    assert(v.sent.len() > 0);
    assert(old_turn(s, now).1 == v.sent);
    assert(old_pass(s, s.old_list.len(), now) == old_turn(s, now));
    assert(old_rounds(s, MAX_DRR_ROUNDS as nat, now) == old_turn(s, now));
    assert(sparse_pass(s, now) == (s, Seq::<LogicalPacket>::empty()));
}

/// A head that costs more than the credit of its flow stays: the flow keeps what it has,
/// gains exactly one quantum, and waits for its next turn.
pub proof fn law_credit_is_saved_up(
    q: FlowState,
    quantum: int,
    target: u64,
    interval: u64,
    now: u64,
)
    requires
        q.packets.len() > 0,
        target > 0,
        now < q.packets[0].enqueued_at + target,
        now <= q.packets[0].enqueued_at + 1_000_000_000,
        q.packets[0].size() > q.deficit + quantum,
    ensures
        ({
            let v = old_visit(q, quantum, target, interval, now);
            &&& v.sent.len() == 0
            &&& v.q.packets == q.packets
            &&& v.q.deficit == q.deficit + quantum
        }),
{
    assert(q.packets.skip(0) =~= q.packets);
    assert(expired_run(q.packets, now) == 0);
}

/// A completed packet costs its flow what it took on the wire beyond its own length, and
/// nothing where it took less; no other flow pays.
pub proof fn law_wire_overhead_is_paid(s: SchedState, k: FlowKey, logical: nat, wire: nat)
    requires
        s.flows.contains_key(k),
    ensures
        ({
            let t = charge_step(s, k, logical as int, wire as int);
            &&& t.flows[k].deficit + wire == s.flows[k].deficit + logical || (wire < logical
                && t.flows[k].deficit == s.flows[k].deficit)
            &&& t.flows[k].deficit <= s.flows[k].deficit
            &&& t.flows[k].packets == s.flows[k].packets
            &&& forall|x: FlowKey| x != k && s.flows.contains_key(x) ==> #[trigger] t.flows[x]
                == s.flows[x]
            &&& t.packets == s.packets
            &&& t.bytes == s.bytes
        }),
{
}

/// Below the peer's bounds an arrival is put last in its flow. A flow that is new is sparse,
/// has no credit and stands last among the sparse ones; one that is known keeps its place
/// and its credit. A flow at its own cap loses its oldest packet for it, and no other.
pub proof fn law_arrival_is_queued_last(s: SchedState, p: LogicalPacket, now: u64)
    requires
        s.packets < 512,
        s.bytes + p.size() <= 262_144,
        occupied(s),
        s.flow_packet_cap > 0,
    ensures
        ({
            let (t, out) = enqueue_step(s, p, now);
            let was = queued(s, p.flow);
            &&& forall|x: FlowKey| x != p.flow && s.flows.contains_key(x) ==> #[trigger] t.flows[x]
                == s.flows[x]
            &&& t.old_list == s.old_list
            &&& was.len() == 0 ==> {
                &&& out == EnqueueOutcome::Accepted
                &&& t.new_list == s.new_list.push(p.flow)
                &&& queued(t, p.flow) == seq![p]
                &&& t.flows[p.flow].sparse
                &&& t.flows[p.flow].deficit == 0
                &&& t.flows[p.flow].epoch == 0
                &&& t.flows[p.flow].codel.first_above_time is None
                &&& !t.flows[p.flow].codel.dropping
            }
            &&& was.len() > 0 ==> {
                &&& t.new_list == s.new_list
                &&& t.flows[p.flow].deficit == s.flows[p.flow].deficit
                &&& t.flows[p.flow].sparse == s.flows[p.flow].sparse
            }
            &&& 0 < was.len() < s.flow_packet_cap ==> out == EnqueueOutcome::Accepted && queued(
                t,
                p.flow,
            ) == was.push(p)
            &&& was.len() >= s.flow_packet_cap ==> queued(t, p.flow) == was.drop_first().push(p)
                && out == (EnqueueOutcome::AcceptedEvicted {
                reason: DropReason::FlowCap,
                evicted_len: was[0].size() as usize,
            })
        }),
{
}

/// At 512 packets, or with no room left of 262144 bytes, an arrival is rejected unless a
/// packet has been queued for more than a second; with room and below 512 it is admitted.
pub proof fn law_bounds_of_a_peer(s: SchedState, p: LogicalPacket, now: u64)
    requires
        occupied(s),
        s.flow_packet_cap > 0,
        forall|k: FlowKey| #[trigger]
            s.flows.contains_key(k) ==> now <= s.flows[k].packets[0].enqueued_at + 1_000_000_000,
    ensures
        enqueue_step(s, p, now).1 is Rejected <==> s.packets >= 512 || s.bytes + p.size()
            > 262_144,
        enqueue_step(s, p, now).1 == (EnqueueOutcome::Rejected {
            reason: DropReason::PeerPacketCap,
        }) <==> s.packets >= 512,
{
    assert forall|k: FlowKey| #[trigger] s.flows.contains_key(k) implies !super::flow::expired(
        s.flows[k].packets[0],
        now,
    ) by {
        assert(now <= s.flows[k].packets[0].enqueued_at + 1_000_000_000);
    }
    law_rejection(s, p, now);
}

/// Over the bounds, a head of the flow whose turn it is that has been queued for more than a
/// second makes way, where that is enough: the arrival is put last in its own flow, and the
/// victim's length is reported.
pub proof fn law_stale_head_makes_way(s: SchedState, p: LogicalPacket, now: u64, k: FlowKey)
    requires
        s.packets >= 512 || s.bytes + p.size() > 262_144,
        s.old_list.len() > 0,
        s.old_list[0] == k,
        s.flows.contains_key(k),
        s.flows[k].packets.len() > 0,
        now > s.flows[k].packets[0].enqueued_at + 1_000_000_000,
        s.bytes + p.size() - s.flows[k].packets[0].size() <= 262_144,
        p.flow != k,
        queued(s, p.flow).len() < s.flow_packet_cap,
    ensures
        ({
            let (t, out) = enqueue_step(s, p, now);
            &&& out == (EnqueueOutcome::AcceptedEvicted {
                reason: DropReason::EmergencyCeiling,
                evicted_len: s.flows[k].packets[0].size() as usize,
            })
            &&& queued(t, k) == s.flows[k].packets.drop_first()
            &&& queued(t, p.flow) == queued(s, p.flow).push(p)
        }),
{
    assert(probe(s, 4, now) == (s, Some(k)));
    let (t, out) = enqueue_step(s, p, now);
    let e = evict(s, k);
    assert(queued(e, p.flow) == queued(s, p.flow));
    assert(queued(e, k) =~= s.flows[k].packets.drop_first());
    assert(queued(t, k) == queued(e, k));
    assert(Seq::<LogicalPacket>::empty().push(p) =~= seq![p]);
    assert(queued(t, p.flow) =~= queued(s, p.flow).push(p));
}

/// A packet that could not be sent goes back to the head of its flow, which goes first in
/// the rotation where it was gone; a flow that is known keeps its place and its credit.
pub proof fn law_requeued_packet_is_next(s: SchedState, k: FlowKey, p: LogicalPacket)
    ensures
        ({
            let t = requeue_step(s, k, p);
            &&& queued(t, k) == seq![p] + queued(s, k)
            &&& t.packets == s.packets + 1
            &&& t.new_list == s.new_list
            &&& !s.flows.contains_key(k) ==> t.old_list == seq![k] + s.old_list
            &&& s.flows.contains_key(k) ==> t.old_list == s.old_list && t.flows[k].deficit
                == s.flows[k].deficit
            &&& forall|x: FlowKey| x != k && s.flows.contains_key(x) ==> #[trigger] t.flows[x]
                == s.flows[x]
        }),
{
    assert(queued(requeue_step(s, k, p), k) =~= seq![p] + queued(s, k));
}

/// The cap of a flow is the number that is set, from 8 packets on; else it is 64.
pub proof fn law_flow_cap_that_is_set(setting: Option<&str>, n: nat)
    ensures
        setting is None ==> flow_cap_of(setting) == 64,
        setting is Some && setting->0@ == numeral(n, 10, false) ==> flow_cap_of(setting) == (if 8
            <= n <= usize::MAX {
            n
        } else {
            64
        }),
        setting is Some && setting->0@.len() == 0 ==> flow_cap_of(setting) == 64,
{
    law_decimal_numbers(n);
    lemma_numeral(n, 10, false);
    if setting is Some && setting->0@.len() == 0 {
        law_other_texts_are_no_numbers(setting->0@, 0);
    }
}

/// A scheduler that is new has counted nothing.
pub proof fn law_nothing_is_counted_at_first()
    ensures
        ({
            let c = SchedCounters::zero();
            &&& c.enqueued == 0 && c.sent_packets == 0 && c.sent_bytes == 0 && c.wire_bytes == 0
            &&& c.drops_codel == 0 && c.drops_cap == 0 && c.drops_emergency == 0
            &&& c.transport_full == 0
        }),
{
}

/// A scheduler starts with nothing queued, with a quantum of 512 bytes at least and an interval
/// of a millisecond at least.
pub proof fn law_scheduler_starts_empty(quantum: usize, target: u64, interval: u64, cap: usize)
    ensures
        ({
            let s = SchedState::start(quantum, target, interval, cap);
            &&& s.bytes == 0 && s.packets == 0
            &&& s.flows == Map::<FlowKey, FlowState>::empty()
            &&& s.new_list.len() == 0 && s.old_list.len() == 0
            &&& s.target == target && s.flow_packet_cap == cap
            &&& quantum >= 512 ==> s.quantum == quantum
            &&& quantum < 512 ==> s.quantum == 512
            &&& interval >= 1_000_000 ==> s.interval == interval
            &&& interval < 1_000_000 ==> s.interval == 1_000_000
            &&& s.reported_codel == 0 && s.reported_emergency == 0
        }),
{
}

} // verus!
