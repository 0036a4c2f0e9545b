//! The scheduler as a transition system over flows, two lists and counters.

use super::{
    DropReason, EnqueueOutcome, SchedCounters, CAP_PROBE_BOUND, MAX_DRR_ROUNDS, PEER_BYTE_CAP,
    PEER_PACKET_CAP,
};
use super::codel::CodelState;
use super::flow::{expired, old_visit, sparse_visit, FlowState, SparseVisit};
use crate::packet::{total_size, FlowKey, LogicalPacket};
use vstd::prelude::*;

verus! {

/// Everything that the scheduler's behaviour depends on.
pub struct SchedState {
    pub flows: Map<FlowKey, FlowState>,
    /// Sparse flows, oldest first.
    pub new_list: Seq<FlowKey>,
    /// Backlogged flows in DRR order.
    pub old_list: Seq<FlowKey>,
    pub bytes: int,
    pub packets: int,
    pub quantum: usize,
    pub flow_packet_cap: usize,
    pub target: u64,
    pub interval: u64,
    pub counters: SchedCounters,
    pub reported_codel: u64,
    pub reported_emergency: u64,
}

pub open spec fn with_codel(c: SchedCounters, n: int) -> SchedCounters {
    SchedCounters { drops_codel: (c.drops_codel + n) as u64, ..c }
}

pub open spec fn with_emergency(c: SchedCounters, n: int) -> SchedCounters {
    SchedCounters { drops_emergency: (c.drops_emergency + n) as u64, ..c }
}

pub open spec fn with_cap(c: SchedCounters) -> SchedCounters {
    SchedCounters { drops_cap: (c.drops_cap + 1) as u64, ..c }
}

pub open spec fn with_enqueued(c: SchedCounters) -> SchedCounters {
    SchedCounters { enqueued: (c.enqueued + 1) as u64, ..c }
}

/// Replaces a flow's queue; a flow whose queue is empty is forgotten.
pub open spec fn settle(s: SchedState, key: FlowKey, q: FlowState) -> SchedState {
    let was = s.flows[key].packets;
    SchedState {
        flows: if q.packets.len() > 0 {
            s.flows.insert(key, q)
        } else {
            s.flows.remove(key)
        },
        bytes: s.bytes - total_size(was) + total_size(q.packets),
        packets: s.packets - was.len() + q.packets.len(),
        ..s
    }
}

/// The outcome of serving the first sparse flow.
pub enum SparseTurn {
    Sent(LogicalPacket),
    Gone,
    Demoted,
}

/// Serves the flow at the front of the sparse list.
pub open spec fn sparse_turn(s: SchedState, now: u64) -> (SchedState, SparseTurn) {
    let key = s.new_list[0];
    let rest = s.new_list.drop_first();
    if !s.flows.contains_key(key) {
        (SchedState { new_list: rest, ..s }, SparseTurn::Gone)
    } else {
        let (v, n) = sparse_visit(s.flows[key], s.quantum as int, now);
        let c = with_emergency(s.counters, n as int);
        match v {
            SparseVisit::Gone => (
                SchedState {
                    new_list: rest,
                    counters: c,
                    ..settle(s, key, FlowState { packets: Seq::empty(), ..s.flows[key] })
                },
                SparseTurn::Gone,
            ),
            SparseVisit::Demoted(q) => (
                SchedState {
                    new_list: rest,
                    old_list: s.old_list.push(key),
                    counters: c,
                    ..settle(s, key, q)
                },
                SparseTurn::Demoted,
            ),
            SparseVisit::Sent(q, p) => (
                SchedState {
                    new_list: if q.packets.len() > 0 && q.sparse {
                        seq![key] + rest
                    } else {
                        rest
                    },
                    old_list: if q.packets.len() > 0 && !q.sparse {
                        s.old_list.push(key)
                    } else {
                        s.old_list
                    },
                    counters: c,
                    ..settle(s, key, q)
                },
                SparseTurn::Sent(p),
            ),
        }
    }
}

/// Serves sparse flows until one sends or one is demoted.
pub open spec fn sparse_pass(s: SchedState, now: u64) -> (SchedState, Seq<LogicalPacket>)
    decreases s.new_list.len(),
{
    if s.new_list.len() == 0 {
        (s, Seq::empty())
    } else {
        let (t, out) = sparse_turn(s, now);
        match out {
            SparseTurn::Sent(p) => (t, seq![p]),
            SparseTurn::Gone => sparse_pass(t, now),
            SparseTurn::Demoted => (t, Seq::empty()),
        }
    }
}

/// Visits the flow at the front of the DRR list; a flow with packets left goes
/// to the back.
pub open spec fn old_turn(s: SchedState, now: u64) -> (SchedState, Seq<LogicalPacket>) {
    let key = s.old_list[0];
    let rest = s.old_list.drop_first();
    if !s.flows.contains_key(key) {
        (SchedState { old_list: rest, ..s }, Seq::empty())
    } else {
        let v = old_visit(s.flows[key], s.quantum as int, s.target, s.interval, now);
        (
            SchedState {
                old_list: if v.q.packets.len() > 0 {
                    rest.push(key)
                } else {
                    rest
                },
                counters: with_emergency(
                    with_codel(s.counters, v.codel as int),
                    v.expired as int,
                ),
                ..settle(s, key, v.q)
            },
            v.sent,
        )
    }
}

/// At most `n` turns, up to the first that sends.
pub open spec fn old_pass(s: SchedState, n: nat, now: u64) -> (SchedState, Seq<LogicalPacket>)
    decreases n,
{
    if n == 0 || s.old_list.len() == 0 {
        (s, Seq::empty())
    } else {
        let (t, sent) = old_turn(s, now);
        if sent.len() > 0 {
            (t, sent)
        } else {
            old_pass(t, (n - 1) as nat, now)
        }
    }
}

/// At most `rounds` rounds over the DRR list, up to the first that sends.
pub open spec fn old_rounds(s: SchedState, rounds: nat, now: u64) -> (
    SchedState,
    Seq<LogicalPacket>,
)
    decreases rounds,
{
    if rounds == 0 || s.old_list.len() == 0 {
        (s, Seq::empty())
    } else {
        let (t, sent) = old_pass(s, s.old_list.len(), now);
        if sent.len() > 0 {
            (t, sent)
        } else {
            old_rounds(t, (rounds - 1) as nat, now)
        }
    }
}

/// The next service opportunity: sparse flows first, then the DRR rotation.
/// Where the rotation retires its last flow without sending, sparse flows that
/// are left get their turn.
pub open spec fn next_burst(s: SchedState, now: u64) -> (SchedState, Seq<LogicalPacket>)
    decreases s.new_list.len(),
{
    let (t, first) = sparse_pass(s, now);
    if first.len() > 0 {
        (t, first)
    } else {
        let (u, sent) = old_rounds(t, MAX_DRR_ROUNDS as nat, now);
        if sent.len() == 0 && u.old_list.len() == 0 && 0 < u.new_list.len() < s.new_list.len() {
            next_burst(u, now)
        } else {
            (u, sent)
        }
    }
}

/// The head of flow `k` is past the ceiling.
pub open spec fn late(s: SchedState, k: FlowKey, now: u64) -> bool {
    &&& s.flows.contains_key(k)
    &&& s.flows[k].packets.len() > 0
    &&& expired(s.flows[k].packets[0], now)
}

/// Without the head of flow `k`, `len` more bytes fit.
pub open spec fn makes_room(s: SchedState, k: FlowKey, len: int) -> bool {
    s.bytes - s.flows[k].packets[0].size() + len <= PEER_BYTE_CAP
}

/// The flow whose turn it is, the DRR list first.
pub open spec fn first_in_line(s: SchedState, k: FlowKey) -> bool {
    if s.old_list.len() > 0 {
        s.old_list[0] == k
    } else {
        s.new_list.len() > 0 && s.new_list[0] == k
    }
}

/// Without the flow whose turn it is in its list.
pub open spec fn stepped(s: SchedState) -> SchedState {
    if s.old_list.len() > 0 {
        SchedState { old_list: s.old_list.drop_first(), ..s }
    } else {
        SchedState { new_list: s.new_list.drop_first(), ..s }
    }
}

/// Probes at most `n` flows, the DRR list first, for a head past the ceiling. Flows
/// without one go to the back of their list; the one found stays first.
pub open spec fn probe(s: SchedState, n: nat, now: u64) -> (SchedState, Option<FlowKey>)
    decreases n,
{
    if n == 0 || (s.old_list.len() == 0 && s.new_list.len() == 0) {
        (s, None)
    } else {
        let key = if s.old_list.len() > 0 {
            s.old_list[0]
        } else {
            s.new_list[0]
        };
        let t = stepped(s);
        if !s.flows.contains_key(key) {
            probe(t, (n - 1) as nat, now)
        } else if late(s, key, now) {
            (s, Some(key))
        } else if s.flows[key].sparse {
            probe(SchedState { new_list: t.new_list.push(key), ..t }, (n - 1) as nat, now)
        } else {
            probe(SchedState { old_list: t.old_list.push(key), ..t }, (n - 1) as nat, now)
        }
    }
}

/// Discards the head of the flow whose turn it is. The drop is reported with the
/// packet that displaced it, so no later drain counts it.
pub open spec fn evict(s: SchedState, key: FlowKey) -> SchedState {
    let t = stepped(s);
    let q = s.flows[key];
    let rest = q.packets.drop_first();
    SchedState {
        old_list: if rest.len() > 0 && !q.sparse {
            seq![key] + t.old_list
        } else {
            t.old_list
        },
        new_list: if rest.len() > 0 && q.sparse {
            seq![key] + t.new_list
        } else {
            t.new_list
        },
        counters: with_emergency(s.counters, 1),
        reported_emergency: (s.reported_emergency + 1) as u64,
        ..settle(t, key, FlowState { packets: rest, ..q })
    }
}

/// The flow holds as many packets as one flow may.
pub open spec fn at_cap(s: SchedState, k: FlowKey) -> bool {
    s.flows.contains_key(k) && s.flows[k].packets.len() >= s.flow_packet_cap
}

/// Puts the packet at the tail of its flow. A flow at its own cap loses its
/// stalest packet for it.
pub open spec fn place(s: SchedState, p: LogicalPacket) -> (SchedState, EnqueueOutcome) {
    let key = p.flow;
    if !s.flows.contains_key(key) {
        (
            SchedState {
                flows: s.flows.insert(key, new_flow(p)),
                new_list: s.new_list.push(key),
                bytes: s.bytes + p.size(),
                packets: s.packets + 1,
                counters: with_enqueued(s.counters),
                ..s
            },
            EnqueueOutcome::Accepted,
        )
    } else {
        let q = s.flows[key];
        if q.packets.len() >= s.flow_packet_cap {
            (
                SchedState {
                    counters: with_enqueued(with_cap(s.counters)),
                    ..settle(
                        s,
                        key,
                        FlowState { packets: q.packets.drop_first().push(p), ..q },
                    )
                },
                EnqueueOutcome::AcceptedEvicted {
                    reason: DropReason::FlowCap,
                    evicted_len: q.packets[0].size() as usize,
                },
            )
        } else {
            (
                SchedState {
                    counters: with_enqueued(s.counters),
                    ..settle(s, key, FlowState { packets: q.packets.push(p), ..q })
                },
                EnqueueOutcome::Accepted,
            )
        }
    }
}

/// A flow that holds one packet.
pub open spec fn new_flow(p: LogicalPacket) -> FlowState {
    FlowState {
        packets: seq![p],
        deficit: 0,
        epoch: 0,
        sparse: true,
        codel: CodelState::fresh(),
    }
}

/// The decision on a packet that arrives: the peer's memory bounds, then its flow.
/// Over the bounds, the first head found past the ceiling decides: where it makes room,
/// one packet is displaced, that head or, in a flow at its cap, the packet's own; where
/// it does not, nothing is, and the packet is rejected for its bytes.
pub open spec fn enqueue_step(s: SchedState, p: LogicalPacket, now: u64) -> (
    SchedState,
    EnqueueOutcome,
) {
    if s.packets >= PEER_PACKET_CAP || s.bytes + p.size() > PEER_BYTE_CAP {
        let (t, found) = probe(s, CAP_PROBE_BOUND as nat, now);
        let room = found is Some && makes_room(t, found->0, p.size() as int);
        if room && !at_cap(evict(t, found->0), p.flow) {
            (
                place(evict(t, found->0), p).0,
                EnqueueOutcome::AcceptedEvicted {
                    reason: DropReason::EmergencyCeiling,
                    evicted_len: t.flows[found->0].packets[0].size() as usize,
                },
            )
        } else if room && makes_room(t, p.flow, p.size() as int) {
            place(t, p)
        } else {
            (
                SchedState { counters: with_cap(t.counters), ..t },
                EnqueueOutcome::Rejected {
                    reason: if t.packets - (if found is Some {
                        1int
                    } else {
                        0
                    }) >= PEER_PACKET_CAP {
                        DropReason::PeerPacketCap
                    } else {
                        DropReason::PeerByteCap
                    },
                },
            )
        }
    } else {
        place(s, p)
    }
}

/// Puts a packet back at the head of its flow.
pub open spec fn requeue_step(s: SchedState, key: FlowKey, p: LogicalPacket) -> SchedState {
    let c = SchedCounters { transport_full: (s.counters.transport_full + 1) as u64, ..s.counters };
    if s.flows.contains_key(key) {
        let q = s.flows[key];
        SchedState {
            counters: c,
            ..settle(s, key, FlowState { packets: seq![p] + q.packets, ..q })
        }
    } else {
        SchedState {
            flows: s.flows.insert(key, new_flow(p)),
            old_list: seq![key] + s.old_list,
            bytes: s.bytes + p.size(),
            packets: s.packets + 1,
            counters: c,
            ..s
        }
    }
}

/// Charges the wire overhead of a completed packet to its flow.
pub open spec fn charge_step(
    s: SchedState,
    key: FlowKey,
    logical_len: int,
    wire_len: int,
) -> SchedState {
    let c = SchedCounters {
        sent_packets: (s.counters.sent_packets + 1) as u64,
        sent_bytes: (s.counters.sent_bytes + logical_len) as u64,
        wire_bytes: (s.counters.wire_bytes + wire_len) as u64,
        ..s.counters
    };
    if s.flows.contains_key(key) {
        let q = s.flows[key];
        let overhead = if wire_len > logical_len {
            wire_len - logical_len
        } else {
            0
        };
        SchedState {
            flows: s.flows.insert(key, FlowState { deficit: q.deficit - overhead, ..q }),
            counters: c,
            ..s
        }
    } else {
        SchedState { counters: c, ..s }
    }
}

} // verus!
