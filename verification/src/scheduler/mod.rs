//! Per-peer FQ-CoDel packet scheduling (RFC 8290).
//!
//! A pure state machine: the pump drives it (`next`, then transmit or drop) and
//! reports what it sent. New flows are served first within a bounded budget;
//! backlogged flows share bytes by deficit round robin; each flow keeps its
//! order; a standing queue is controlled by CoDel per flow.

pub mod books;
pub mod codel;
pub mod drops;
pub mod fairness;
pub mod flow;
pub mod history;
pub mod laws;
pub mod model;
pub mod service;

use crate::packet::{lemma_total_push, lemma_total_split, total_size, FlowKey, LogicalPacket};
use crate::table::{lemma_weight_push, lemma_weight_remove, slot, weight, Table};
use crate::text::{parse_usize, usize_of};
use flow::{
    age, age_of, carries, lemma_expired_run, lemma_old_visit, DequeueBurst, FlowQueue, FlowState,
    SojournSample, EMERGENCY_CEILING, NEW_FLOW_BYTE_BUDGET, SPARSE_SOJOURN_BAR,
};
use model::{
    at_cap, charge_step, enqueue_step, evict, first_in_line, late, next_burst, old_pass, old_rounds,
    old_turn, place, probe, requeue_step, sparse_pass, sparse_turn, SchedState, SparseTurn,
};
use std::collections::VecDeque;
use vstd::prelude::*;

verus! {

/// CoDel target: the sojourn that indicates a standing queue (nanoseconds).
pub const CODEL_TARGET: u64 = 5_000_000;

/// CoDel interval: the standing-queue observation window (nanoseconds).
pub const CODEL_INTERVAL: u64 = 100_000_000;

/// Total queued bytes per peer.
pub const PEER_BYTE_CAP: usize = 256 * 1024;

/// Hard packet cap per peer.
pub const PEER_PACKET_CAP: usize = 512;

/// Per-flow packet cap.
pub const FLOW_PACKET_CAP: usize = 64;

/// Flows inspected per enqueue under cap pressure.
pub const CAP_PROBE_BOUND: usize = 4;

/// Upper bound on immediate DRR rounds inside one `next` call.
pub const MAX_DRR_ROUNDS: u8 = 64;

/// Smallest quantum, in bytes.
pub const MIN_QUANTUM: usize = 512;

/// Smallest per-flow packet cap.
pub const MIN_FLOW_CAP: usize = 8;

/// Shortest CoDel interval (nanoseconds).
pub const MIN_INTERVAL: u64 = 1_000_000;

/// Admissions and returns that one scheduler can count in its lifetime.
pub const MAX_ADMITTED: u64 = 0x4000_0000_0000_0000;

/// The packet cap of a flow: the one that is set, where it is a number and not too small.
pub open spec fn flow_cap_of(setting: Option<&str>) -> usize {
    match setting {
        Some(s) => match usize_of(s@) {
            Some(n) => if n >= MIN_FLOW_CAP {
                n
            } else {
                FLOW_PACKET_CAP
            },
            None => FLOW_PACKET_CAP,
        },
        None => FLOW_PACKET_CAP,
    }
}

/// Default per-flow packet cap, honoring the diagnostic override.
pub fn flow_packet_cap_default(setting: Option<&str>) -> (n: usize)
    ensures
        n == flow_cap_of(setting),
{
    match setting {
        Some(s) => match parse_usize(s) {
            Some(n) => if n >= MIN_FLOW_CAP {
                n
            } else {
                FLOW_PACKET_CAP
            },
            None => FLOW_PACKET_CAP,
        },
        None => FLOW_PACKET_CAP,
    }
}

/// Why a packet was dropped.
#[derive(Debug, Clone, Copy, PartialEq, Eq, Structural)]
pub enum DropReason {
    PeerByteCap,
    PeerPacketCap,
    FlowCap,
    Codel,
    EmergencyCeiling,
    TooLarge,
    NoConnection,
}

impl DropReason {
    pub open spec fn label(self) -> Seq<char> {
        match self {
            DropReason::PeerByteCap => "sched_peer_bytes"@,
            DropReason::PeerPacketCap => "sched_peer_packets"@,
            DropReason::FlowCap => "sched_flow_cap"@,
            DropReason::Codel => "sched_codel"@,
            DropReason::EmergencyCeiling => "sched_emergency"@,
            DropReason::TooLarge => "datagram_too_large"@,
            DropReason::NoConnection => "no_connection"@,
        }
    }

    pub fn as_str(self) -> (s: &'static str)
        ensures
            s@ == self.label(),
    {
        match self {
            DropReason::PeerByteCap => "sched_peer_bytes",
            DropReason::PeerPacketCap => "sched_peer_packets",
            DropReason::FlowCap => "sched_flow_cap",
            DropReason::Codel => "sched_codel",
            DropReason::EmergencyCeiling => "sched_emergency",
            DropReason::TooLarge => "datagram_too_large",
            DropReason::NoConnection => "no_connection",
        }
    }
}

/// Scheduler counters reported to telemetry.
#[derive(Debug, Clone, Copy)]
pub struct SchedCounters {
    pub enqueued: u64,
    pub sent_packets: u64,
    pub sent_bytes: u64,
    pub wire_bytes: u64,
    pub drops_codel: u64,
    pub drops_cap: u64,
    pub drops_emergency: u64,
    pub transport_full: u64,
}

impl SchedCounters {
    pub open spec fn zero() -> SchedCounters {
        SchedCounters {
            enqueued: 0,
            sent_packets: 0,
            sent_bytes: 0,
            wire_bytes: 0,
            drops_codel: 0,
            drops_cap: 0,
            drops_emergency: 0,
            transport_full: 0,
        }
    }
}

impl Default for SchedCounters {
    fn default() -> (c: Self)
        ensures
            c == SchedCounters::zero(),
    {
        SchedCounters {
            enqueued: 0,
            sent_packets: 0,
            sent_bytes: 0,
            wire_bytes: 0,
            drops_codel: 0,
            drops_cap: 0,
            drops_emergency: 0,
            transport_full: 0,
        }
    }
}

/// Dequeue decision returned to the pump.
pub enum Dequeue {
    /// Transmit this burst (all packets, in order).
    Send(Box<DequeueBurst>),
    /// Scheduler empty.
    Empty,
}

/// Enqueue decision. Every packet that is shed or evicted for the newcomer is
/// reported here.
#[derive(Debug, Clone, Copy, PartialEq, Eq, Structural)]
pub enum EnqueueOutcome {
    /// Admitted.
    Accepted,
    /// Admitted, and an older packet was evicted to make room.
    AcceptedEvicted { reason: DropReason, evicted_len: usize },
    /// Shed.
    Rejected { reason: DropReason },
}

impl EnqueueOutcome {
    pub fn is_accepted(self) -> (b: bool)
        ensures
            b == !(self is Rejected),
    {
        matches!(self, EnqueueOutcome::Accepted | EnqueueOutcome::AcceptedEvicted { .. })
    }
}

/// CoDel and emergency drops since the last drain.
#[derive(Debug, Clone, Copy)]
pub struct SchedDropDeltas {
    pub codel: u64,
    pub emergency: u64,
}

impl SchedDropDeltas {
    pub fn is_empty(self) -> (b: bool)
        ensures
            b == (self.codel == 0 && self.emergency == 0),
    {
        self.codel == 0 && self.emergency == 0
    }
}

/// Per-peer FQ-CoDel scheduler, owned by the peer's pump.
pub struct PeerScheduler {
    pub flows: Table<FlowKey, FlowQueue>,
    /// New (sparse) flows, oldest first.
    pub new_list: VecDeque<FlowKey>,
    /// Backlogged flows in DRR order.
    pub old_list: VecDeque<FlowKey>,
    pub bytes: usize,
    pub packets: usize,
    pub quantum: usize,
    pub flow_packet_cap: usize,
    pub target: u64,
    pub interval: u64,
    pub counters: SchedCounters,
    pub reported_codel: u64,
    pub reported_emergency: u64,
}

pub open spec fn states(m: Map<FlowKey, FlowQueue>) -> Map<FlowKey, FlowState> {
    Map::new(|k: FlowKey| m.dom().contains(k), |k: FlowKey| m[k]@)
}

/// Every flow is on exactly one list, once, and nothing else is.
pub open spec fn lists_ok(dom: Set<FlowKey>, a: Seq<FlowKey>, b: Seq<FlowKey>) -> bool {
    &&& a.no_duplicates()
    &&& b.no_duplicates()
    &&& forall|k: FlowKey| !(#[trigger] a.contains(k) && b.contains(k))
    &&& forall|k: FlowKey| #[trigger] dom.contains(k) <==> a.contains(k) || b.contains(k)
}

pub open spec fn bytes_of() -> spec_fn(FlowQueue) -> nat {
    |q: FlowQueue| total_size(q.packets@)
}

pub open spec fn packets_of() -> spec_fn(FlowQueue) -> nat {
    |q: FlowQueue| q.packets@.len()
}

/// Packets queued, and packets that CoDel or the ceiling took.
pub open spec fn balance(s: PeerScheduler) -> int {
    s.packets + s.counters.drops_codel + s.counters.drops_emergency
}

pub open spec fn counters_ok(c: SchedCounters, packets: int) -> bool {
    &&& packets + c.drops_codel + c.drops_emergency <= c.enqueued + c.transport_full
    &&& c.enqueued + c.transport_full <= MAX_ADMITTED
}

/// Packets that left the queues other than by CoDel or the ceiling.
pub open spec fn served(c: SchedCounters, packets: int) -> int {
    c.enqueued + c.transport_full - packets - c.drops_codel - c.drops_emergency
}

proof fn lemma_states(m: Map<FlowKey, FlowQueue>, k: FlowKey, q: FlowQueue)
    ensures
        states(m.remove(k)) == states(m).remove(k),
        states(m.insert(k, q)) == states(m).insert(k, q@),
{
    assert(states(m.remove(k)) =~= states(m).remove(k));
    assert(states(m.insert(k, q)) =~= states(m).insert(k, q@));
}

proof fn lemma_drop_first(s: Seq<FlowKey>)
    requires
        s.len() > 0,
        s.no_duplicates(),
    ensures
        s.drop_first().no_duplicates(),
        s.contains(s[0]),
        forall|k: FlowKey|
            #[trigger] s.drop_first().contains(k) <==> s.contains(k) && k != s[0],
{
    let t = s.drop_first();
    assert forall|k: FlowKey| #[trigger] t.contains(k) <==> s.contains(k) && k != s[0] by {
        if t.contains(k) {
            let i = choose|i: int| 0 <= i < t.len() && t[i] == k;
            assert(s[i + 1] == k);
        }
        if s.contains(k) && k != s[0] {
            let i = choose|i: int| 0 <= i < s.len() && s[i] == k;
            assert(t[i - 1] == k);
        }
    }
}

proof fn lemma_list_push(s: Seq<FlowKey>, x: FlowKey)
    requires
        s.no_duplicates(),
        !s.contains(x),
    ensures
        s.push(x).no_duplicates(),
        forall|k: FlowKey| #[trigger] s.push(x).contains(k) <==> s.contains(k) || k == x,
        (seq![x] + s).no_duplicates(),
        forall|k: FlowKey| #[trigger] (seq![x] + s).contains(k) <==> s.contains(k) || k == x,
{
    let t = s.push(x);
    let u = seq![x] + s;
    assert(t[s.len() as int] == x);
    assert(u[0] == x);
    assert forall|k: FlowKey| #[trigger] t.contains(k) <==> s.contains(k) || k == x by {
        if s.contains(k) {
            let i = choose|i: int| 0 <= i < s.len() && s[i] == k;
            assert(t[i] == k);
        }
    }
    assert forall|k: FlowKey| #[trigger] u.contains(k) <==> s.contains(k) || k == x by {
        if s.contains(k) {
            let i = choose|i: int| 0 <= i < s.len() && s[i] == k;
            assert(u[i + 1] == k);
        }
        if u.contains(k) && k != x {
            let i = choose|i: int| 0 <= i < u.len() && u[i] == k;
            assert(s[i - 1] == k);
        }
    }
}

impl PeerScheduler {
    pub open spec fn state(&self) -> SchedState {
        SchedState {
            flows: states(self.flows@),
            new_list: self.new_list@,
            old_list: self.old_list@,
            bytes: self.bytes as int,
            packets: self.packets as int,
            quantum: self.quantum,
            flow_packet_cap: self.flow_packet_cap,
            target: self.target,
            interval: self.interval,
            counters: self.counters,
            reported_codel: self.reported_codel,
            reported_emergency: self.reported_emergency,
        }
    }

    pub open spec fn flow_ok(q: FlowQueue, c: SchedCounters, packets: int) -> bool {
        &&& q.wf(c.wire_bytes as int, served(c, packets), c.drops_codel as int)
        &&& q.packets@.len() > 0
    }

    /// The books balance: the lists hold exactly the flows with packets, and the
    /// byte and packet counts are the totals over the flows.
    pub open spec fn wf(&self) -> bool {
        &&& self.flows.wf()
        &&& lists_ok(self.flows@.dom(), self.new_list@, self.old_list@)
        &&& forall|k: FlowKey| #[trigger]
            self.flows@.dom().contains(k) ==> Self::flow_ok(
                self.flows@[k],
                self.counters,
                self.packets as int,
            )
        &&& self.bytes == weight(self.flows.entries@, bytes_of())
        &&& self.packets == weight(self.flows.entries@, packets_of())
        &&& counters_ok(self.counters, self.packets as int)
        &&& self.quantum >= MIN_QUANTUM
        &&& self.flow_packet_cap >= MIN_FLOW_CAP
        &&& MIN_INTERVAL <= self.interval < 0x8000_0000_0000_0000
        &&& self.reported_codel <= self.counters.drops_codel
        &&& self.reported_emergency <= self.counters.drops_emergency
    }

    pub fn new(quantum: usize) -> (s: Self)
        ensures
            s.wf(),
            s.state() == SchedState::start(quantum, CODEL_TARGET, CODEL_INTERVAL, FLOW_PACKET_CAP),
    {
        Self::with_params(quantum, CODEL_TARGET, CODEL_INTERVAL)
    }

    /// Custom CoDel timing.
    pub fn with_params(quantum: usize, target: u64, interval: u64) -> (s: Self)
        requires
            interval < 0x8000_0000_0000_0000,
        ensures
            s.wf(),
            s.state() == SchedState::start(quantum, target, interval, FLOW_PACKET_CAP),
    {
        let s = PeerScheduler {
            flows: Table::new(),
            new_list: VecDeque::new(),
            old_list: VecDeque::new(),
            bytes: 0,
            packets: 0,
            quantum: if quantum < MIN_QUANTUM { MIN_QUANTUM } else { quantum },
            flow_packet_cap: FLOW_PACKET_CAP,
            target,
            interval: if interval < MIN_INTERVAL { MIN_INTERVAL } else { interval },
            counters: SchedCounters::default(),
            reported_codel: 0,
            reported_emergency: 0,
        };
        assert(s.state().flows =~= Map::empty());
        s
    }

    proof fn lemma_resettle(s: Self, key: FlowKey, q: FlowQueue)
        requires
            s.wf(),
            s.flows@.dom().contains(key),
        ensures
            ({
                let i = slot(s.flows.entries@, key);
                let e = s.flows.entries@.remove(i);
                let was = s.flows@[key];
                &&& weight(e, bytes_of()) == s.bytes - total_size(was.packets@)
                &&& weight(e, packets_of()) == s.packets - was.packets@.len()
                &&& weight(e.push((key, q)), bytes_of()) == s.bytes - total_size(was.packets@)
                    + total_size(q.packets@)
                &&& weight(e.push((key, q)), packets_of()) == s.packets - was.packets@.len()
                    + q.packets@.len()
                &&& total_size(was.packets@) <= s.bytes
                &&& was.packets@.len() <= s.packets
                &&& s.flows@.remove(key).insert(key, q) == s.flows@.insert(key, q)
                &&& states(s.flows@.remove(key)) == states(s.flows@).remove(key)
                &&& states(s.flows@.insert(key, q)) == states(s.flows@).insert(key, q@)
                &&& s.flows@.remove(key).dom() == s.flows@.dom().remove(key)
            }),
    {
        let i = slot(s.flows.entries@, key);
        let e = s.flows.entries@.remove(i);
        assert(0 <= i < s.flows.entries@.len() && s.flows.entries@[i].0 == key);
        lemma_weight_remove(s.flows.entries@, i, bytes_of());
        lemma_weight_remove(s.flows.entries@, i, packets_of());
        lemma_weight_push(e, (key, q), bytes_of());
        lemma_weight_push(e, (key, q), packets_of());
        lemma_states(s.flows@, key, q);
        assert(s.flows@.remove(key).insert(key, q) =~= s.flows@.insert(key, q));
        assert(s.flows@.remove(key).dom() =~= s.flows@.dom().remove(key));
    }

    /// Visits the flow at the front of the DRR list: see [`old_turn`].
    fn turn_old(&mut self, now: u64) -> (burst: Vec<(Box<LogicalPacket>, SojournSample)>)
        requires
            old(self).wf(),
            old(self).old_list@.len() > 0,
        ensures
            final(self).wf(),
            final(self).state() == old_turn(old(self).state(), now).0,
            carries(burst@, old_turn(old(self).state(), now).1, now),
            balance(*final(self)) + burst@.len() == balance(*old(self)),
    {
        let ghost s0 = *self;
        proof {
            lemma_drop_first(s0.old_list@);
            assert(s0.flows@.dom().contains(s0.old_list@[0]));
        }
        let key = self.old_list.pop_front().unwrap();
        assert(self.old_list@ =~= s0.old_list@.drop_first());
        let mut burst: Vec<(Box<LogicalPacket>, SojournSample)> = Vec::new();
        let mut q = self.flows.take(&key).unwrap();
        let bytes_before: usize = q.bytes;
        let len_before: usize = q.packets.len();
        proof {
            lemma_old_visit(q@, self.quantum as int, self.target, self.interval, now);
            Self::lemma_resettle(s0, key, q);
        }
        let r = q.visit_old(
            self.quantum,
            self.target,
            self.interval,
            now,
            &mut burst,
            Ghost(self.counters.wire_bytes as int),
            Ghost(served(self.counters, self.packets as int)),
            Ghost(self.counters.drops_codel as int),
        );
        proof {
            Self::lemma_resettle(s0, key, q);
        }
        self.bytes = self.bytes - (bytes_before - q.bytes);
        self.packets = self.packets - (len_before - q.packets.len());
        self.counters.drops_codel = self.counters.drops_codel + r.0;
        self.counters.drops_emergency = self.counters.drops_emergency + r.1;
        if q.packets.len() > 0 {
            proof {
                lemma_list_push(self.old_list@, key);
            }
            self.old_list.push_back(key);
            let _ = self.flows.insert(key, q);
        }
        proof {
            assert(lists_ok(self.flows@.dom(), self.new_list@, self.old_list@));
            assert forall|k: FlowKey| #[trigger] self.flows@.dom().contains(k) implies Self::flow_ok(
                self.flows@[k],
                self.counters,
                self.packets as int,
            ) by {
                if k != key {
                    assert(s0.flows@.dom().contains(k));
                }
            }
        }
        burst
    }

    /// Serves the flow at the front of the sparse list: see [`sparse_turn`].
    fn turn_sparse(&mut self, now: u64) -> (out: SparseOut)
        requires
            old(self).wf(),
            old(self).new_list@.len() > 0,
        ensures
            final(self).wf(),
            ({
                let (t, turn) = sparse_turn(old(self).state(), now);
                &&& final(self).state() == t
                &&& match turn {
                    SparseTurn::Gone => out is Gone,
                    SparseTurn::Demoted => out is Demoted,
                    SparseTurn::Sent(p) => out matches SparseOut::Send(b, sample) && *b == p
                        && sample.sojourn == age(now, p.enqueued_at),
                }
            }),
            balance(*final(self)) + (if out is Send { 1int } else { 0 }) == balance(*old(self)),
            !(out is Send) ==> final(self).new_list@.len() < old(self).new_list@.len(),
    {
        let ghost s0 = *self;
        proof {
            lemma_drop_first(s0.new_list@);
            assert(s0.new_list@.contains(s0.new_list@[0]));
            assert(s0.flows@.dom().contains(s0.new_list@[0]));
        }
        let key = self.new_list.pop_front().unwrap();
        assert(self.new_list@ =~= s0.new_list@.drop_first());
        let mut q = self.flows.take(&key).unwrap();
        let bytes_before: usize = q.bytes;
        let len_before: usize = q.packets.len();
        proof {
            Self::lemma_resettle(s0, key, q);
            lemma_expired_run(q.packets@, now);
        }
        let n: u64 = q.shed_expired(now);
        let ghost live = q.packets@;
        self.counters.drops_emergency = self.counters.drops_emergency + n;
        let out;
        if q.packets.len() == 0 {
            assert(q.packets@ =~= Seq::empty());
            out = SparseOut::Gone;
        } else if !q.is_new || q.epoch_bytes >= NEW_FLOW_BYTE_BUDGET || age_of(
            now,
            q.packets[0].enqueued_at,
        ) > SPARSE_SOJOURN_BAR {
            q.is_new = false;
            out = SparseOut::Demoted;
        } else {
            let sojourn: u64 = age_of(now, q.packets[0].enqueued_at);
            let p = q.send_sparse(
                self.quantum,
                Ghost(self.counters.wire_bytes as int),
                Ghost(served(s0.counters, s0.packets as int)),
                Ghost(self.counters.drops_codel as int),
            );
            out = SparseOut::Send(Box::new(p), SojournSample { sojourn });
        }
        proof {
            Self::lemma_resettle(s0, key, q);
        }
        self.bytes = self.bytes - (bytes_before - q.bytes);
        self.packets = self.packets - (len_before - q.packets.len());
        if q.packets.len() > 0 {
            proof {
                lemma_list_push(self.old_list@, key);
                lemma_list_push(self.new_list@, key);
            }
            if q.is_new {
                self.new_list.push_front(key);
            } else {
                self.old_list.push_back(key);
            }
            let _ = self.flows.insert(key, q);
        }
        proof {
            assert(lists_ok(self.flows@.dom(), self.new_list@, self.old_list@));
            assert forall|k: FlowKey| #[trigger] self.flows@.dom().contains(k) implies Self::flow_ok(
                self.flows@[k],
                self.counters,
                self.packets as int,
            ) by {
                if k != key {
                    assert(s0.flows@.dom().contains(k));
                }
            }
        }
        out
    }

    /// Serves sparse flows until one sends or one is demoted.
    fn serve_sparse(&mut self, now: u64) -> (out: Option<(Box<LogicalPacket>, SojournSample)>)
        requires
            old(self).wf(),
        ensures
            final(self).wf(),
            balance(*final(self)) + (if out is Some { 1int } else { 0 }) == balance(*old(self)),
            final(self).new_list@.len() <= old(self).new_list@.len(),
            out is None && final(self).new_list@.len() > 0 ==> final(self).new_list@.len() < old(
                self,
            ).new_list@.len(),
            ({
                let (t, sent) = sparse_pass(old(self).state(), now);
                &&& final(self).state() == t
                &&& out is None == (sent.len() == 0)
                &&& out matches Some(b) ==> sent == seq![*b.0] && b.1.sojourn == age(
                    now,
                    b.0.enqueued_at,
                )
            }),
    {
        let ghost s0 = self.state();
        while self.new_list.len() > 0
            invariant
                self.wf(),
                s0 == old(self).state(),
                balance(*self) == balance(*old(self)),
                self.new_list@.len() <= s0.new_list.len(),
                sparse_pass(s0, now) == sparse_pass(self.state(), now),
            decreases self.new_list@.len(),
        {
            match self.turn_sparse(now) {
                SparseOut::Send(p, sample) => {
                    return Some((p, sample));
                },
                SparseOut::Gone => {},
                SparseOut::Demoted => {
                    return None;
                },
            }
        }
        None
    }

    /// At most [`MAX_DRR_ROUNDS`] rounds over the DRR list.
    fn serve_old(&mut self, now: u64) -> (burst: Vec<(Box<LogicalPacket>, SojournSample)>)
        requires
            old(self).wf(),
        ensures
            final(self).wf(),
            balance(*final(self)) + burst@.len() == balance(*old(self)),
            final(self).new_list@ == old(self).new_list@,
            ({
                let (t, sent) = old_rounds(old(self).state(), MAX_DRR_ROUNDS as nat, now);
                &&& final(self).state() == t
                &&& carries(burst@, sent, now)
            }),
    {
        let ghost goal = old_rounds(self.state(), MAX_DRR_ROUNDS as nat, now);
        let mut round: u8 = 0;
        while round < MAX_DRR_ROUNDS
            invariant
                self.wf(),
                balance(*self) == balance(*old(self)),
                self.new_list@ == old(self).new_list@,
                goal == old_rounds(old(self).state(), MAX_DRR_ROUNDS as nat, now),
                round <= MAX_DRR_ROUNDS,
                goal == old_rounds(self.state(), (MAX_DRR_ROUNDS - round) as nat, now),
            decreases MAX_DRR_ROUNDS - round,
        {
            let n: usize = self.old_list.len();
            if n == 0 {
                return Vec::new();
            }
            let ghost s1 = self.state();
            let mut i: usize = 0;
            while i < n && self.old_list.len() > 0
                invariant
                    self.wf(),
                    balance(*self) == balance(*old(self)),
                    self.new_list@ == old(self).new_list@,
                    goal == old_rounds(old(self).state(), MAX_DRR_ROUNDS as nat, now),
                    i <= n,
                    n == s1.old_list.len(),
                    n > 0,
                    goal == old_rounds(s1, (MAX_DRR_ROUNDS - round) as nat, now),
                    round < MAX_DRR_ROUNDS,
                    old_pass(s1, n as nat, now) == old_pass(self.state(), (n - i) as nat, now),
                decreases n - i,
            {
                let burst = self.turn_old(now);
                if burst.len() > 0 {
                    return burst;
                }
                i += 1;
            }
            round += 1;
        }
        Vec::new()
    }

    /// The next service opportunity: sparse flows first, one packet each; else
    /// byte-DRR across backlogged flows, each visit granting one quantum and
    /// serving every affordable head. Every packet that leaves the queue is either
    /// in the burst or counted as a drop.
    pub fn next(&mut self, now: u64) -> (d: Dequeue)
        requires
            old(self).wf(),
        ensures
            final(self).wf(),
            ({
                let (t, sent) = next_burst(old(self).state(), now);
                &&& final(self).state() == t
                &&& d is Empty == (sent.len() == 0)
                &&& d matches Dequeue::Send(b) ==> carries(b.packets@, sent, now)
                &&& balance(*final(self)) + sent.len() == balance(*old(self))
            }),
    {
        let ghost goal = next_burst(self.state(), now);
        loop
            invariant
                self.wf(),
                balance(*self) == balance(*old(self)),
                goal == next_burst(old(self).state(), now),
                goal == next_burst(self.state(), now),
            decreases self.new_list@.len(),
        {
            let before: usize = self.new_list.len();
            if let Some(b) = self.serve_sparse(now) {
                let mut packets: Vec<(Box<LogicalPacket>, SojournSample)> = Vec::new();
                packets.push(b);
                return Dequeue::Send(Box::new(DequeueBurst { packets }));
            }
            let burst = self.serve_old(now);
            if burst.len() > 0 {
                return Dequeue::Send(Box::new(DequeueBurst { packets: burst }));
            }
            if self.old_list.len() > 0 || self.new_list.len() == 0 {
                return Dequeue::Empty;
            }
        }
    }

    /// Looks for a head past the ceiling: see [`probe`]. The flow found stands first in
    /// its list.
    fn find_late(&mut self, now: u64) -> (found: Option<FlowKey>)
        requires
            old(self).wf(),
        ensures
            final(self).wf(),
            (final(self).state(), found) == probe(
                old(self).state(),
                CAP_PROBE_BOUND as nat,
                now,
            ),
            final(self).flows == old(self).flows,
            final(self).packets == old(self).packets,
            final(self).bytes == old(self).bytes,
            final(self).counters == old(self).counters,
            final(self).reported_emergency == old(self).reported_emergency,
            found matches Some(k) ==> first_in_line(final(self).state(), k) && late(
                final(self).state(),
                k,
                now,
            ),
    {
        let mut i: usize = 0;
        while i < CAP_PROBE_BOUND
            invariant
                self.wf(),
                i <= CAP_PROBE_BOUND,
                self.flows == old(self).flows,
                self.packets == old(self).packets,
                self.bytes == old(self).bytes,
                self.counters == old(self).counters,
                self.reported_emergency == old(self).reported_emergency,
                probe(old(self).state(), CAP_PROBE_BOUND as nat, now) == probe(
                    self.state(),
                    (CAP_PROBE_BOUND - i) as nat,
                    now,
                ),
            decreases CAP_PROBE_BOUND - i,
        {
            let ghost s1 = *self;
            let from_old = self.old_list.len() > 0;
            if !from_old && self.new_list.len() == 0 {
                return None;
            }
            proof {
                if from_old {
                    lemma_drop_first(s1.old_list@);
                    assert(s1.flows@.dom().contains(s1.old_list@[0]));
                } else {
                    lemma_drop_first(s1.new_list@);
                    assert(s1.new_list@.contains(s1.new_list@[0]));
                    assert(s1.flows@.dom().contains(s1.new_list@[0]));
                }
            }
            let key: FlowKey = if from_old {
                self.old_list[0]
            } else {
                self.new_list[0]
            };
            let q = self.flows.get(&key).unwrap();
            let sparse = q.is_new;
            if age_of(now, q.packets[0].enqueued_at) > EMERGENCY_CEILING {
                return Some(key);
            }
            if from_old {
                let _ = self.old_list.pop_front();
                assert(self.old_list@ =~= s1.old_list@.drop_first());
            } else {
                let _ = self.new_list.pop_front();
                assert(self.new_list@ =~= s1.new_list@.drop_first());
            }
            proof {
                lemma_list_push(self.old_list@, key);
                lemma_list_push(self.new_list@, key);
            }
            if sparse {
                self.new_list.push_back(key);
            } else {
                self.old_list.push_back(key);
            }
            assert(lists_ok(self.flows@.dom(), self.new_list@, self.old_list@));
            i += 1;
        }
        None
    }

    /// Discards the head of the flow that stands first in its list: see [`evict`].
    fn evict_head(&mut self, key: FlowKey) -> (len: usize)
        requires
            old(self).wf(),
            first_in_line(old(self).state(), key),
            old(self).flows@.dom().contains(key),
        ensures
            final(self).wf(),
            final(self).state() == evict(old(self).state(), key),
            len == old(self).flows@[key].packets@[0].size(),
            final(self).packets + 1 == old(self).packets,
            final(self).bytes + len == old(self).bytes,
    {
        let ghost s1 = *self;
        proof {
            if s1.old_list@.len() > 0 {
                lemma_drop_first(s1.old_list@);
            } else {
                lemma_drop_first(s1.new_list@);
            }
        }
        if self.old_list.len() > 0 {
            let _ = self.old_list.pop_front();
            assert(self.old_list@ =~= s1.old_list@.drop_first());
        } else {
            let _ = self.new_list.pop_front();
            assert(self.new_list@ =~= s1.new_list@.drop_first());
        }
        let mut q = self.flows.take(&key).unwrap();
        proof {
            Self::lemma_resettle(s1, key, q);
            lemma_list_push(self.old_list@, key);
            lemma_list_push(self.new_list@, key);
        }
        let p = q.pop();
        proof {
            Self::lemma_resettle(s1, key, q);
        }
        let len: usize = p.len();
        self.bytes = self.bytes - len;
        self.packets = self.packets - 1;
        self.counters.drops_emergency = self.counters.drops_emergency + 1;
        self.reported_emergency = self.reported_emergency + 1;
        if q.packets.len() > 0 {
            if q.is_new {
                self.new_list.push_front(key);
            } else {
                self.old_list.push_front(key);
            }
            let _ = self.flows.insert(key, q);
        }
        proof {
            assert(lists_ok(self.flows@.dom(), self.new_list@, self.old_list@));
            assert forall|k: FlowKey| #[trigger] self.flows@.dom().contains(k) implies Self::flow_ok(
                self.flows@[k],
                self.counters,
                self.packets as int,
            ) by {
                if k != key {
                    assert(s1.flows@.dom().contains(k));
                }
            }
        }
        len
    }

    /// The number of packets and the length of the head of a flow.
    fn extent(&self, flow: FlowKey) -> (r: (usize, usize))
        requires
            self.wf(),
        ensures
            self.flows@.dom().contains(flow) ==> r.0 == self.flows@[flow].packets@.len() && r.1
                == self.flows@[flow].packets@[0].size(),
            !self.flows@.dom().contains(flow) ==> r == (0usize, 0usize),
    {
        match self.flows.get(&flow) {
            Some(q) => (q.packets.len(), q.packets[0].len()),
            None => (0, 0),
        }
    }

    /// Puts a packet at the tail of its flow: see [`place`].
    fn place(&mut self, packet: LogicalPacket) -> (out: EnqueueOutcome)
        requires
            old(self).wf(),
            old(self).bytes + packet.size() - (if at_cap(old(self).state(), packet.flow) {
                old(self).flows@[packet.flow].packets@[0].size() as int
            } else {
                0
            }) <= usize::MAX,
            old(self).packets < usize::MAX,
            old(self).counters.enqueued + old(self).counters.transport_full < MAX_ADMITTED,
            old(self).counters.drops_cap < u64::MAX,
        ensures
            final(self).wf(),
            (final(self).state(), out) == place(old(self).state(), packet),
            balance(*final(self)) + final(self).counters.drops_cap == balance(*old(self)) + old(
                self,
            ).counters.drops_cap + 1,
            out is Accepted == (final(self).counters.drops_cap == old(self).counters.drops_cap),
            out is Accepted == !at_cap(old(self).state(), packet.flow),
            !(out is Rejected),
    {
        let ghost s0 = *self;
        let key = packet.flow;
        let len: usize = packet.len();
        let out;
        match self.flows.take(&key) {
            None => {
                let mut q = FlowQueue::new();
                proof {
                    assert(!s0.flows@.dom().contains(key));
                    lemma_list_push(s0.new_list@, key);
                    lemma_total_push(Seq::empty(), packet);
                    assert(Seq::<LogicalPacket>::empty().push(packet) =~= seq![packet]);
                    assert(s0.flows@.remove(key) =~= s0.flows@);
                }
                q.packets.push_back(packet);
                q.bytes = len;
                proof {
                    lemma_states(s0.flows@, key, q);
                    lemma_weight_push(s0.flows.entries@, (key, q), bytes_of());
                    lemma_weight_push(s0.flows.entries@, (key, q), packets_of());
                }
                let _ = self.flows.insert(key, q);
                self.new_list.push_back(key);
                self.bytes = self.bytes + len;
                self.packets = self.packets + 1;
                out = EnqueueOutcome::Accepted;
            },
            Some(mut q) => {
                proof {
                    Self::lemma_resettle(s0, key, q);
                    assert(s0.flows@.dom().contains(key));
                }
                if q.packets.len() >= self.flow_packet_cap {
                    let gone = q.pop();
                    let evicted_len: usize = gone.len();
                    self.bytes = self.bytes - evicted_len;
                    self.packets = self.packets - 1;
                    self.counters.drops_cap = self.counters.drops_cap + 1;
                    proof {
                        lemma_total_push(q.packets@, packet);
                    }
                    q.bytes = q.bytes + len;
                    q.packets.push_back(packet);
                    out = EnqueueOutcome::AcceptedEvicted {
                        reason: DropReason::FlowCap,
                        evicted_len,
                    };
                } else {
                    proof {
                        lemma_total_push(q.packets@, packet);
                    }
                    q.bytes = q.bytes + len;
                    q.packets.push_back(packet);
                    out = EnqueueOutcome::Accepted;
                }
                proof {
                    Self::lemma_resettle(s0, key, q);
                }
                self.bytes = self.bytes + len;
                self.packets = self.packets + 1;
                let _ = self.flows.insert(key, q);
                assert(self.flows@.dom() =~= s0.flows@.dom());
            },
        }
        self.counters.enqueued = self.counters.enqueued + 1;
        proof {
            assert(lists_ok(self.flows@.dom(), self.new_list@, self.old_list@));
            assert forall|k: FlowKey| #[trigger] self.flows@.dom().contains(k) implies Self::flow_ok(
                self.flows@[k],
                self.counters,
                self.packets as int,
            ) by {
                if k != key {
                    assert(s0.flows@.dom().contains(k));
                }
            }
        }
        out
    }

    /// Enqueues a logical packet. The outcome reports admission, eviction (with
    /// the victim's length) or rejection with its reason.
    pub fn enqueue(&mut self, packet: LogicalPacket, now: u64) -> (out: EnqueueOutcome)
        requires
            old(self).wf(),
            old(self).packets < usize::MAX,
            old(self).counters.enqueued + old(self).counters.transport_full < MAX_ADMITTED,
            old(self).counters.drops_cap < u64::MAX,
        ensures
            final(self).wf(),
            (final(self).state(), out) == enqueue_step(old(self).state(), packet, now),
            balance(*final(self)) + final(self).counters.drops_cap == balance(*old(self)) + old(
                self,
            ).counters.drops_cap + 1,
            (out is Rejected || out matches EnqueueOutcome::AcceptedEvicted {
                reason: DropReason::FlowCap,
                ..
            }) == (final(self).counters.drops_cap == old(self).counters.drops_cap + 1),
            final(self).counters.drops_emergency - final(self).reported_emergency == old(
                self,
            ).counters.drops_emergency - old(self).reported_emergency,
    {
        let len: usize = packet.len();
        if self.packets < PEER_PACKET_CAP && len <= PEER_BYTE_CAP && self.bytes <= PEER_BYTE_CAP
            - len {
            return self.place(packet);
        }
        let found = self.find_late(now);
        let ghost t = self.state();
        let mut beyond: usize = self.packets;
        if let Some(key) = found {
            assert(self.flows@.dom().contains(key));
            let (_, first) = self.extent(key);
            let need: u128 = self.bytes as u128 + len as u128;
            let room = need <= PEER_BYTE_CAP as u128 + first as u128;
            proof {
                Self::lemma_resettle(*self, key, self.flows@[key]);
            }
            beyond = self.packets - 1;
            let (held, head) = self.extent(packet.flow);
            let left: usize = if key == packet.flow {
                held - 1
            } else {
                held
            };
            proof {
                lemma_evict(t, key, packet.flow);
            }
            if room && left < self.flow_packet_cap {
                let evicted_len: usize = self.evict_head(key);
                let _ = self.place(packet);
                return EnqueueOutcome::AcceptedEvicted {
                    reason: DropReason::EmergencyCeiling,
                    evicted_len,
                };
            }
            if room && need <= PEER_BYTE_CAP as u128 + head as u128 {
                return self.place(packet);
            }
        }
        self.counters.drops_cap = self.counters.drops_cap + 1;
        EnqueueOutcome::Rejected {
            reason: if beyond >= PEER_PACKET_CAP {
                DropReason::PeerPacketCap
            } else {
                DropReason::PeerByteCap
            },
        }
    }

    /// Requeues a packet at its flow head (transport full: retry later without
    /// losing order).
    pub fn requeue_head(&mut self, flow: FlowKey, packet: LogicalPacket)
        requires
            old(self).wf(),
            old(self).bytes + packet.size() <= usize::MAX,
            old(self).packets < usize::MAX,
            old(self).counters.enqueued + old(self).counters.transport_full < MAX_ADMITTED,
        ensures
            final(self).wf(),
            final(self).state() == requeue_step(old(self).state(), flow, packet),
    {
        let ghost s0 = *self;
        let len: usize = packet.len();
        proof {
            assert(seq![packet].drop_last() =~= Seq::<LogicalPacket>::empty());
            assert(seq![packet].last() == packet);
            assert(total_size(seq![packet]) == total_size(seq![packet].drop_last())
                + packet.size());
        }
        match self.flows.take(&flow) {
            None => {
                let mut q = FlowQueue::new();
                proof {
                    assert(!s0.flows@.dom().contains(flow));
                    lemma_list_push(s0.old_list@, flow);
                    assert(s0.flows@.remove(flow) =~= s0.flows@);
                    assert(seq![packet] + Seq::<LogicalPacket>::empty() =~= seq![packet]);
                }
                q.packets.push_front(packet);
                q.bytes = len;
                proof {
                    lemma_states(s0.flows@, flow, q);
                    lemma_weight_push(s0.flows.entries@, (flow, q), bytes_of());
                    lemma_weight_push(s0.flows.entries@, (flow, q), packets_of());
                }
                let _ = self.flows.insert(flow, q);
                self.old_list.push_front(flow);
            },
            Some(mut q) => {
                proof {
                    Self::lemma_resettle(s0, flow, q);
                    lemma_total_split(seq![packet], q.packets@);
                    assert(s0.flows@.dom().contains(flow));
                }
                q.bytes = q.bytes + len;
                q.packets.push_front(packet);
                proof {
                    Self::lemma_resettle(s0, flow, q);
                }
                let _ = self.flows.insert(flow, q);
                assert(self.flows@.dom() =~= s0.flows@.dom());
            },
        }
        self.bytes = self.bytes + len;
        self.packets = self.packets + 1;
        self.counters.transport_full = self.counters.transport_full + 1;
        proof {
            assert(lists_ok(self.flows@.dom(), self.new_list@, self.old_list@));
            assert forall|k: FlowKey| #[trigger] self.flows@.dom().contains(k) implies Self::flow_ok(
                self.flows@[k],
                self.counters,
                self.packets as int,
            ) by {
                if k != flow {
                    assert(s0.flows@.dom().contains(k));
                }
            }
        }
    }

    /// Accounts one completed logical packet. The dequeue already debited its
    /// length; only the wire overhead beyond it is charged here.
    pub fn account_sent(&mut self, flow: FlowKey, logical_len: usize, wire_len: usize)
        requires
            old(self).wf(),
            old(self).counters.sent_packets < u64::MAX,
            old(self).counters.sent_bytes + logical_len <= u64::MAX,
            old(self).counters.wire_bytes + wire_len <= u64::MAX,
        ensures
            final(self).wf(),
            final(self).state() == charge_step(
                old(self).state(),
                flow,
                logical_len as int,
                wire_len as int,
            ),
    {
        let ghost s0 = *self;
        self.counters.sent_packets = self.counters.sent_packets + 1;
        self.counters.sent_bytes = self.counters.sent_bytes + logical_len as u64;
        self.counters.wire_bytes = self.counters.wire_bytes + wire_len as u64;
        match self.flows.take(&flow) {
            Some(mut q) => {
                let overhead: usize = wire_len.saturating_sub(logical_len);
                proof {
                    Self::lemma_resettle(s0, flow, q);
                    assert(s0.flows@.dom().contains(flow));
                }
                q.deficit = q.deficit - overhead as i128;
                proof {
                    Self::lemma_resettle(s0, flow, q);
                }
                let _ = self.flows.insert(flow, q);
                assert(self.flows@.dom() =~= s0.flows@.dom());
            },
            None => {
                assert(s0.flows@.remove(flow) =~= s0.flows@);
            },
        }
        proof {
            assert(lists_ok(self.flows@.dom(), self.new_list@, self.old_list@));
            assert forall|k: FlowKey| #[trigger] self.flows@.dom().contains(k) implies Self::flow_ok(
                self.flows@[k],
                self.counters,
                self.packets as int,
            ) by {
                if k != flow {
                    assert(s0.flows@.dom().contains(k));
                }
            }
        }
    }

    pub fn set_quantum(&mut self, quantum: usize)
        requires
            old(self).wf(),
        ensures
            final(self).wf(),
            final(self).state() == (SchedState {
                quantum: if quantum < MIN_QUANTUM {
                    MIN_QUANTUM
                } else {
                    quantum
                },
                ..old(self).state()
            }),
    {
        self.quantum = if quantum < MIN_QUANTUM {
            MIN_QUANTUM
        } else {
            quantum
        };
    }

    /// Overrides the per-flow packet cap.
    pub fn set_flow_packet_cap(&mut self, cap: usize)
        requires
            old(self).wf(),
        ensures
            final(self).wf(),
            final(self).state() == (SchedState {
                flow_packet_cap: if cap < MIN_FLOW_CAP {
                    MIN_FLOW_CAP
                } else {
                    cap
                },
                ..old(self).state()
            }),
    {
        self.flow_packet_cap = if cap < MIN_FLOW_CAP {
            MIN_FLOW_CAP
        } else {
            cap
        };
    }

    /// Queued packets, queued bytes and flows.
    pub fn levels(&self) -> (r: (u64, u64, u64))
        ensures
            r.0 == self.packets,
            r.1 == self.bytes,
            r.2 == self.flows.entries@.len(),
    {
        (self.packets as u64, self.bytes as u64, self.flows.len() as u64)
    }

    pub fn counters(&self) -> (c: SchedCounters)
        ensures
            c == self.counters,
    {
        self.counters
    }

    /// Takes the unreported CoDel and emergency drops since the last drain.
    pub fn drain_drops(&mut self) -> (d: SchedDropDeltas)
        requires
            old(self).wf(),
        ensures
            final(self).wf(),
            d.codel == old(self).counters.drops_codel - old(self).reported_codel,
            d.emergency == old(self).counters.drops_emergency - old(self).reported_emergency,
            final(self).state() == (SchedState {
                reported_codel: old(self).counters.drops_codel,
                reported_emergency: old(self).counters.drops_emergency,
                ..old(self).state()
            }),
    {
        let out = SchedDropDeltas {
            codel: self.counters.drops_codel - self.reported_codel,
            emergency: self.counters.drops_emergency - self.reported_emergency,
        };
        self.reported_codel = self.counters.drops_codel;
        self.reported_emergency = self.counters.drops_emergency;
        out
    }

    pub fn is_empty(&self) -> (b: bool)
        ensures
            b == (self.packets == 0),
    {
        self.packets == 0
    }

    /// Drops all queued packets. Returns the dropped packets, bytes and flows.
    pub fn clear(&mut self) -> (r: (u64, u64, u64))
        requires
            old(self).wf(),
        ensures
            final(self).wf(),
            r.0 == old(self).packets,
            r.1 == old(self).bytes,
            r.2 == old(self).flows.entries@.len(),
            final(self).state() == (SchedState {
                flows: Map::empty(),
                new_list: Seq::empty(),
                old_list: Seq::empty(),
                bytes: 0,
                packets: 0,
                ..old(self).state()
            }),
    {
        let out = (self.packets as u64, self.bytes as u64, self.flows.len() as u64);
        self.flows.clear();
        self.new_list.clear();
        self.old_list.clear();
        self.bytes = 0;
        self.packets = 0;
        assert(states(self.flows@) =~= Map::empty());
        out
    }
}

/// What serving one sparse flow gave.
enum SparseOut {
    Send(Box<LogicalPacket>, SojournSample),
    Gone,
    Demoted,
}

/// Discarding a head changes the count of its own flow alone.
proof fn lemma_evict(s: SchedState, key: FlowKey, flow: FlowKey)
    requires
        s.flows.contains_key(key),
        s.flows[key].packets.len() > 0,
        s.flow_packet_cap > 0,
    ensures
        at_cap(evict(s, key), flow) == (s.flows.contains_key(flow) && s.flows[flow].packets.len()
            - (if key == flow { 1int } else { 0 }) >= s.flow_packet_cap),
        evict(s, key).flow_packet_cap == s.flow_packet_cap,
{
}

impl SchedState {
    /// A scheduler with nothing queued.
    pub open spec fn start(quantum: usize, target: u64, interval: u64, cap: usize) -> SchedState {
        SchedState {
            flows: Map::empty(),
            new_list: Seq::empty(),
            old_list: Seq::empty(),
            bytes: 0,
            packets: 0,
            quantum: if quantum < MIN_QUANTUM {
                MIN_QUANTUM
            } else {
                quantum
            },
            flow_packet_cap: cap,
            target,
            interval: if interval < MIN_INTERVAL {
                MIN_INTERVAL
            } else {
                interval
            },
            counters: SchedCounters::zero(),
            reported_codel: 0,
            reported_emergency: 0,
        }
    }
}

} // verus!
