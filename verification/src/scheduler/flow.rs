//! One flow's queue, and what a service visit does to it.

use super::MAX_ADMITTED;
use super::codel::{observe, CodelState};
use crate::packet::{
    lemma_total_first, lemma_total_push, lemma_total_split, total_size, LogicalPacket,
};
use std::collections::VecDeque;
use vstd::prelude::*;

verus! {

/// Hard bound on a packet's time in the queue: a safety bound, not the AQM.
pub const EMERGENCY_CEILING: u64 = 1_000_000_000;

/// A flow stays sparse until it has sent this many bytes.
pub const NEW_FLOW_BYTE_BUDGET: usize = 16 * 1024;

/// A head older than this is not interactive.
pub const SPARSE_SOJOURN_BAR: u64 = 25_000_000;

/// How long something that began at `at` has lasted; zero before it began.
pub open spec fn age(now: u64, at: u64) -> int {
    if now >= at {
        now - at
    } else {
        0
    }
}

pub fn age_of(now: u64, at: u64) -> (a: u64)
    ensures
        a == age(now, at),
{
    if now >= at {
        now - at
    } else {
        0
    }
}

/// The packet has been queued for longer than the ceiling allows.
pub open spec fn expired(p: LogicalPacket, now: u64) -> bool {
    age(now, p.enqueued_at) > EMERGENCY_CEILING
}

/// How many packets at the front are past the ceiling.
pub open spec fn expired_run(s: Seq<LogicalPacket>, now: u64) -> nat
    decreases s.len(),
{
    if s.len() > 0 && expired(s[0], now) {
        1 + expired_run(s.drop_first(), now)
    } else {
        0
    }
}

pub proof fn lemma_expired_run(s: Seq<LogicalPacket>, now: u64)
    ensures
        expired_run(s, now) <= s.len(),
        forall|i: int| 0 <= i < expired_run(s, now) ==> expired(#[trigger] s[i], now),
        expired_run(s, now) < s.len() ==> !expired(s[expired_run(s, now) as int], now),
    decreases s.len(),
{
    if s.len() > 0 && expired(s[0], now) {
        let t = s.drop_first();
        lemma_expired_run(t, now);
        assert forall|i: int| 0 <= i < expired_run(s, now) implies expired(#[trigger] s[i], now) by {
            if i > 0 {
                assert(t[i - 1] == s[i]);
            }
        }
        if expired_run(s, now) < s.len() {
            assert(t[expired_run(t, now) as int] == s[expired_run(s, now) as int]);
        }
    }
}

/// A flow's queue as the model sees it.
pub struct FlowState {
    pub packets: Seq<LogicalPacket>,
    pub deficit: int,
    pub epoch: usize,
    pub sparse: bool,
    pub codel: CodelState,
}

/// One flow's queue.
pub struct FlowQueue {
    pub packets: VecDeque<LogicalPacket>,
    pub bytes: usize,
    pub deficit: i128,
    pub epoch_bytes: usize,
    pub is_new: bool,
    pub codel: CodelState,
}

/// `n` as a `usize`, held at the largest one.
pub open spec fn clip(n: int) -> usize {
    if n > usize::MAX {
        usize::MAX
    } else {
        n as usize
    }
}

/// What a burst takes off a queue with `deficit` bytes to spend: heads past the
/// ceiling are discarded, and affordable heads are sent, until a head costs more
/// than what is left.
pub struct Drained {
    pub sent: Seq<LogicalPacket>,
    pub rest: Seq<LogicalPacket>,
    pub deficit: int,
    pub expired: nat,
}

pub open spec fn drain(s: Seq<LogicalPacket>, deficit: int, now: u64) -> Drained
    decreases s.len(),
{
    if s.len() == 0 {
        Drained { sent: Seq::empty(), rest: s, deficit, expired: 0 }
    } else if expired(s[0], now) {
        let d = drain(s.drop_first(), deficit, now);
        Drained { expired: d.expired + 1, ..d }
    } else if s[0].size() > deficit {
        Drained { sent: Seq::empty(), rest: s, deficit, expired: 0 }
    } else {
        let d = drain(s.drop_first(), deficit - s[0].size(), now);
        Drained { sent: seq![s[0]] + d.sent, ..d }
    }
}

/// The outcome of one visit to a flow.
pub struct Visit {
    pub q: FlowState,
    pub sent: Seq<LogicalPacket>,
    pub codel: nat,
    pub expired: nat,
}

/// A visit of the byte-DRR rotation: the ceiling, then one CoDel observation of
/// the head, then either one CoDel drop, or one quantum and a burst.
pub open spec fn old_visit(
    q: FlowState,
    quantum: int,
    target: u64,
    interval: u64,
    now: u64,
) -> Visit {
    let n = expired_run(q.packets, now);
    let live = q.packets.skip(n as int);
    if live.len() == 0 {
        Visit { q: FlowState { packets: live, ..q }, sent: Seq::empty(), codel: 0, expired: n }
    } else {
        let (c, dropped) = observe(
            q.codel,
            age(now, live[0].enqueued_at),
            now,
            target,
            interval,
        );
        if dropped {
            Visit {
                q: FlowState { packets: live.drop_first(), codel: c, ..q },
                sent: Seq::empty(),
                codel: 1,
                expired: n,
            }
        } else {
            let d = drain(live, q.deficit + quantum, now);
            let c2 = if c.first_above_time is None {
                CodelState { dropping: false, count: 0, ..c }
            } else {
                c
            };
            Visit {
                q: FlowState {
                    packets: d.rest,
                    deficit: d.deficit,
                    epoch: clip(q.epoch + total_size(d.sent)),
                    codel: c2,
                    ..q
                },
                sent: d.sent,
                codel: 0,
                expired: n + d.expired,
            }
        }
    }
}

/// What a visit as a sparse flow leads to.
pub enum SparseVisit {
    /// Nothing is left of the queue.
    Gone,
    /// The flow is no longer sparse.
    Demoted(FlowState),
    /// One packet is sent; the rest of the queue follows.
    Sent(FlowState, LogicalPacket),
}

pub open spec fn sparse_visit(q: FlowState, quantum: int, now: u64) -> (SparseVisit, nat) {
    let n = expired_run(q.packets, now);
    let live = q.packets.skip(n as int);
    if live.len() == 0 {
        (SparseVisit::Gone, n)
    } else if !q.sparse || q.epoch >= NEW_FLOW_BYTE_BUDGET || age(now, live[0].enqueued_at)
        > SPARSE_SOJOURN_BAR {
        (SparseVisit::Demoted(FlowState { packets: live, sparse: false, ..q }), n)
    } else {
        let epoch = clip(q.epoch + live[0].size());
        (
            SparseVisit::Sent(
                FlowState {
                    packets: live.drop_first(),
                    deficit: q.deficit + quantum - live[0].size(),
                    epoch,
                    sparse: live.len() == 1 || epoch < NEW_FLOW_BYTE_BUDGET,
                    ..q
                },
                live[0],
            ),
            n,
        )
    }
}

/// Sojourn observation for telemetry.
#[derive(Debug, Clone, Copy)]
pub struct SojournSample {
    pub sojourn: u64,
}

/// The packets of one service opportunity, in order.
pub struct DequeueBurst {
    pub packets: Vec<(Box<LogicalPacket>, SojournSample)>,
}

/// The burst holds exactly `sent`, each packet with its age.
pub open spec fn carries(
    b: Seq<(Box<LogicalPacket>, SojournSample)>,
    sent: Seq<LogicalPacket>,
    now: u64,
) -> bool {
    &&& b.len() == sent.len()
    &&& forall|i: int|
        0 <= i < sent.len() ==> *(#[trigger] b[i]).0 == sent[i] && b[i].1.sojourn == age(
            now,
            sent[i].enqueued_at,
        )
}

/// The deficit stays within what `turns` sparse packets and the charged overhead
/// explain.
pub open spec fn deficit_ok(q: FlowState, overhead: int, turns: int) -> bool {
    &&& q.deficit <= 0x1_0000_0000_0000_0000 * (turns + 1)
    &&& q.deficit >= -overhead - 0x1_0000_0000_0000_0000 * turns
}

impl View for FlowQueue {
    type V = FlowState;

    open spec fn view(&self) -> FlowState {
        FlowState {
            packets: self.packets@,
            deficit: self.deficit as int,
            epoch: self.epoch_bytes,
            sparse: self.is_new,
            codel: self.codel,
        }
    }
}

impl FlowQueue {
    /// The byte count is right and the arithmetic has room.
    pub open spec fn wf(&self, overhead: int, turns: int, drops: int) -> bool {
        &&& self.bytes == total_size(self.packets@)
        &&& self.packets@.len() > 0 ==> deficit_ok(self@, overhead, turns)
        &&& self.codel.count <= drops
    }

    pub fn new() -> (q: Self)
        ensures
            q@ == (FlowState {
                packets: Seq::empty(),
                deficit: 0,
                epoch: 0,
                sparse: true,
                codel: CodelState::fresh(),
            }),
            q.bytes == 0,
    {
        FlowQueue {
            packets: VecDeque::new(),
            bytes: 0,
            deficit: 0,
            epoch_bytes: 0,
            is_new: true,
            codel: CodelState::new(),
        }
    }

    /// Takes the head off the queue.
    pub fn pop(&mut self) -> (p: LogicalPacket)
        requires
            old(self).packets@.len() > 0,
            old(self).bytes == total_size(old(self).packets@),
        ensures
            p == old(self).packets@[0],
            final(self)@ == (FlowState { packets: old(self).packets@.drop_first(), ..old(self)@ }),
            final(self).bytes == total_size(final(self).packets@),
            final(self).bytes + p.size() == old(self).bytes,
    {
        proof {
            lemma_total_first(self.packets@);
        }
        let p = self.packets.pop_front().unwrap();
        assert(self.packets@ =~= old(self).packets@.drop_first());
        self.bytes = self.bytes - p.len();
        p
    }

    /// Discards the packets at the front that are past the ceiling.
    pub fn shed_expired(&mut self, now: u64) -> (n: u64)
        requires
            old(self).bytes == total_size(old(self).packets@),
            old(self).packets@.len() <= u64::MAX,
        ensures
            n == expired_run(old(self).packets@, now),
            n <= old(self).packets@.len(),
            final(self)@ == (FlowState {
                packets: old(self).packets@.skip(n as int),
                ..old(self)@
            }),
            final(self).bytes == total_size(final(self).packets@),
            final(self).bytes <= old(self).bytes,
    {
        let mut n: u64 = 0;
        let ghost s0 = self.packets@;
        assert(s0.skip(0) =~= s0);
        while self.packets.len() > 0 && age_of(now, self.packets[0].enqueued_at)
            > EMERGENCY_CEILING
            invariant
                n <= s0.len() <= u64::MAX,
                self@ == (FlowState { packets: s0.skip(n as int), ..old(self)@ }),
                s0 == old(self).packets@,
                self.bytes == total_size(self.packets@),
                self.bytes <= old(self).bytes,
                expired_run(s0, now) == n + expired_run(self.packets@, now),
            decreases self.packets@.len(),
        {
            let _ = self.pop();
            assert(s0.skip(n as int).drop_first() =~= s0.skip(n + 1));
            n = n + 1;
        }
        proof {
            lemma_expired_run(s0, now);
        }
        n
    }

    /// Serves every head that the deficit affords, adding each to `burst`.
    fn drain_into(
        &mut self,
        now: u64,
        burst: &mut Vec<(Box<LogicalPacket>, SojournSample)>,
    ) -> (expired: u64)
        requires
            old(self).bytes == total_size(old(self).packets@),
            old(self).packets@.len() <= u64::MAX,
            -0x7000_0000_0000_0000_0000_0000_0000_0000 <= old(self).deficit
                <= 0x7000_0000_0000_0000_0000_0000_0000_0000,
            old(burst)@.len() == 0,
        ensures
            ({
                let d = drain(old(self).packets@, old(self).deficit as int, now);
                &&& carries(final(burst)@, d.sent, now)
                &&& expired == d.expired
                &&& final(self)@ == (FlowState {
                    packets: d.rest,
                    deficit: d.deficit,
                    epoch: clip(old(self).epoch_bytes + total_size(d.sent)),
                    ..old(self)@
                })
            }),
            final(self).bytes == total_size(final(self).packets@),
            final(self).bytes <= old(self).bytes,
    {
        let ghost s0 = self.packets@;
        let ghost d0 = self.deficit as int;
        let ghost goal = drain(s0, d0, now);
        let mut expired: u64 = 0;
        let ghost mut sent: Seq<LogicalPacket> = Seq::empty();
        assert(sent + goal.sent =~= goal.sent);
        loop
            invariant
                s0 == old(self).packets@,
                s0.len() <= u64::MAX,
                d0 == old(self).deficit,
                goal == drain(s0, d0, now),
                self.bytes == total_size(self.packets@),
                self.bytes <= old(self).bytes,
                carries(burst@, sent, now),
                self.deficit <= d0,
                self.deficit >= 0 || self.deficit == d0,
                -0x7000_0000_0000_0000_0000_0000_0000_0000 <= d0 <= 0x7000_0000_0000_0000_0000_0000_0000_0000,
                goal.sent == sent + drain(self.packets@, self.deficit as int, now).sent,
                goal.rest == drain(self.packets@, self.deficit as int, now).rest,
                goal.deficit == drain(self.packets@, self.deficit as int, now).deficit,
                goal.expired == expired + drain(self.packets@, self.deficit as int, now).expired,
                expired + self.packets@.len() <= s0.len(),
                self@ == (FlowState {
                    packets: self.packets@,
                    deficit: self.deficit as int,
                    epoch: clip(old(self).epoch_bytes + total_size(sent)),
                    ..old(self)@
                }),
            ensures
                goal.rest == self.packets@,
                goal.deficit == self.deficit,
                goal.expired == expired,
                goal.sent == sent,
            decreases self.packets@.len(),
        {
            if self.packets.len() == 0 {
                assert(sent + Seq::<LogicalPacket>::empty() =~= sent);
                break;
            }
            let sojourn: u64 = age_of(now, self.packets[0].enqueued_at);
            let head_len: usize = self.packets[0].len();
            if sojourn > EMERGENCY_CEILING {
                let _ = self.pop();
                expired = expired + 1;
                continue;
            }
            if head_len as i128 > self.deficit {
                assert(sent + Seq::<LogicalPacket>::empty() =~= sent);
                break;
            }
            let ghost before = self.packets@;
            let p = self.pop();
            self.deficit = self.deficit - head_len as i128;
            self.epoch_bytes = self.epoch_bytes.saturating_add(head_len);
            proof {
                let tail = drain(self.packets@, self.deficit as int, now).sent;
                assert(sent + (seq![p] + tail) =~= sent.push(p) + tail);
                lemma_total_push(sent, p);
                sent = sent.push(p);
            }
            burst.push((Box::new(p), SojournSample { sojourn }));
        }
        expired
    }

    /// One visit of the byte-DRR rotation: see [`old_visit`]. Returns the number
    /// of CoDel drops and of packets past the ceiling.
    pub fn visit_old(
        &mut self,
        quantum: usize,
        target: u64,
        interval: u64,
        now: u64,
        burst: &mut Vec<(Box<LogicalPacket>, SojournSample)>,
        Ghost(overhead): Ghost<int>,
        Ghost(turns): Ghost<int>,
        Ghost(drops): Ghost<int>,
    ) -> (r: (u64, u64))
        requires
            old(self).wf(overhead, turns, drops),
            0 <= overhead <= u64::MAX,
            0 <= turns <= MAX_ADMITTED,
            drops < u64::MAX,
            old(self).packets@.len() <= u64::MAX,
            interval < 0x8000_0000_0000_0000,
            old(burst)@.len() == 0,
        ensures
            ({
                let v = old_visit(old(self)@, quantum as int, target, interval, now);
                &&& final(self)@ == v.q
                &&& carries(final(burst)@, v.sent, now)
                &&& r == (v.codel as u64, v.expired as u64)
                &&& v.codel <= 1
                &&& v.expired <= u64::MAX
            }),
            final(self).wf(overhead, turns, drops + r.0),
            final(self).bytes <= old(self).bytes,
    {
        let n: u64 = self.shed_expired(now);
        if self.packets.len() == 0 {
            return (0, n);
        }
        let ghost live = self.packets@;
        let sojourn: u64 = age_of(now, self.packets[0].enqueued_at);
        let dropped = self.codel.observe(sojourn, now, target, interval);
        if dropped {
            let _ = self.pop();
            return (1, n);
        }
        self.deficit = self.deficit + quantum as i128;
        let ghost d1 = self.deficit as int;
        let m: u64 = self.drain_into(now, burst);
        proof {
            lemma_drain(live, d1, now);
            lemma_drain_deficit(live, d1, now);
            if self.packets@.len() > 0 {
                lemma_total_first(self.packets@);
            }
        }
        if self.codel.first_above_time.is_none() {
            self.codel.dropping = false;
            self.codel.count = 0;
        }
        (0, n + m)
    }

    /// Takes the head of a sparse flow off for sending.
    pub fn send_sparse(
        &mut self,
        quantum: usize,
        Ghost(overhead): Ghost<int>,
        Ghost(turns): Ghost<int>,
        Ghost(drops): Ghost<int>,
    ) -> (p: LogicalPacket)
        requires
            old(self).wf(overhead, turns, drops),
            0 <= overhead <= u64::MAX,
            0 <= turns <= MAX_ADMITTED,
            old(self).packets@.len() > 0,
            old(self).epoch_bytes < NEW_FLOW_BYTE_BUDGET,
            old(self).is_new,
        ensures
            p == old(self).packets@[0],
            final(self).wf(overhead, turns + 1, drops),
            final(self).bytes + p.size() == old(self).bytes,
            ({
                let epoch = clip(old(self).epoch_bytes + p.size());
                final(self)@ == (FlowState {
                    packets: old(self).packets@.drop_first(),
                    deficit: old(self).deficit + quantum - p.size(),
                    epoch,
                    sparse: old(self).packets@.len() == 1 || epoch < NEW_FLOW_BYTE_BUDGET,
                    ..old(self)@
                })
            }),
    {
        let p = self.pop();
        self.deficit = self.deficit + quantum as i128 - p.len() as i128;
        self.epoch_bytes = self.epoch_bytes.saturating_add(p.len());
        if self.packets.len() > 0 && self.epoch_bytes >= NEW_FLOW_BYTE_BUDGET {
            self.is_new = false;
        }
        p
    }
}

/// A burst splits the queue: what it takes is a prefix, what is left a suffix,
/// and the packets of the prefix are sent in order but for the expired ones.
pub proof fn lemma_drain(s: Seq<LogicalPacket>, deficit: int, now: u64)
    ensures
        ({
            let d = drain(s, deficit, now);
            let k = s.len() - d.rest.len();
            &&& 0 <= k <= s.len()
            &&& d.rest == s.skip(k)
            &&& d.sent == s.take(k).filter(|p: LogicalPacket| !expired(p, now))
            &&& d.sent.len() + d.expired + d.rest.len() == s.len()
        }),
    decreases s.len(),
{
    let d = drain(s, deficit, now);
    let f = |p: LogicalPacket| !expired(p, now);
    reveal(Seq::filter);
    if s.len() == 0 {
        assert(d.rest =~= s.skip(0));
        assert(s.take(0) =~= Seq::empty());
    } else {
        let t = s.drop_first();
        if expired(s[0], now) || s[0].size() <= deficit {
            let d2 = if expired(s[0], now) {
                drain(t, deficit, now)
            } else {
                drain(t, deficit - s[0].size(), now)
            };
            if expired(s[0], now) {
                lemma_drain(t, deficit, now);
            } else {
                lemma_drain(t, deficit - s[0].size(), now);
            }
            let k2 = t.len() - d2.rest.len();
            assert(t.skip(k2) =~= s.skip(k2 + 1));
            assert(s.take(k2 + 1) =~= seq![s[0]] + t.take(k2));
            Seq::filter_distributes_over_add(seq![s[0]], t.take(k2), f);
            assert(seq![s[0]].drop_last() =~= Seq::<LogicalPacket>::empty());
            assert(seq![s[0]].last() == s[0]);
            assert(Seq::<LogicalPacket>::empty().filter(f) =~= Seq::empty());
            if expired(s[0], now) {
                assert(seq![s[0]].filter(f) =~= Seq::empty());
                assert(Seq::<LogicalPacket>::empty() + t.take(k2).filter(f) =~= t.take(k2).filter(f));
            } else {
                assert(seq![s[0]].filter(f) =~= seq![s[0]]);
            }
        } else {
            assert(d.rest =~= s.skip(0));
            assert(s.take(0) =~= Seq::<LogicalPacket>::empty());
            assert(s.take(0).filter(f) =~= Seq::empty());
        }
    }
}

/// What is left of the deficit after a burst.
pub proof fn lemma_drain_deficit(s: Seq<LogicalPacket>, deficit: int, now: u64)
    ensures
        ({
            let d = drain(s, deficit, now);
            &&& d.deficit <= deficit
            &&& d.deficit >= 0 || d.deficit == deficit
            &&& d.deficit == deficit - total_size(d.sent)
            &&& d.rest.len() > 0 ==> d.rest[0].size() > d.deficit && !expired(d.rest[0], now)
            &&& d.rest.len() > 0 && d.sent.len() == 0 ==> d.deficit == deficit
        }),
    decreases s.len(),
{
    if s.len() > 0 {
        let t = s.drop_first();
        if expired(s[0], now) {
            lemma_drain_deficit(t, deficit, now);
        } else if s[0].size() <= deficit {
            lemma_drain_deficit(t, deficit - s[0].size(), now);
            let d2 = drain(t, deficit - s[0].size(), now);
            lemma_total_split(seq![s[0]], d2.sent);
            lemma_total_first(seq![s[0]]);
            assert(seq![s[0]].drop_first() =~= Seq::<LogicalPacket>::empty());
        }
    }
}

/// A visit accounts for every packet, and leaves a suffix of the queue.
pub proof fn lemma_old_visit(
    q: FlowState,
    quantum: int,
    target: u64,
    interval: u64,
    now: u64,
)
    ensures
        ({
            let v = old_visit(q, quantum, target, interval, now);
            let k = q.packets.len() - v.q.packets.len();
            &&& v.q.packets.len() + v.sent.len() + v.codel + v.expired == q.packets.len()
            &&& v.q.packets == q.packets.skip(k)
            &&& v.sent.len() > 0 ==> v.sent == q.packets.take(k).filter(
                |p: LogicalPacket| !expired(p, now),
            )
        }),
{
    let n = expired_run(q.packets, now) as int;
    let live = q.packets.skip(n);
    lemma_expired_run(q.packets, now);
    if live.len() > 0 {
        let d = drain(live, q.deficit + quantum, now);
        lemma_drain(live, q.deficit + quantum, now);
        let f = |p: LogicalPacket| !expired(p, now);
        let k = live.len() - d.rest.len();
        assert(live.skip(k) =~= q.packets.skip(n + k));
        assert(live.drop_first() =~= q.packets.skip(n + 1));
        assert(q.packets.take(n + k) =~= q.packets.take(n) + live.take(k));
        Seq::filter_distributes_over_add(q.packets.take(n), live.take(k), f);
        lemma_filter_none(q.packets.take(n), f);
        assert(Seq::<LogicalPacket>::empty() + live.take(k).filter(f) =~= live.take(k).filter(f));
    } else {
        assert(q.packets.skip(q.packets.len() as int) =~= live);
    }
}

proof fn lemma_filter_none(s: Seq<LogicalPacket>, f: spec_fn(LogicalPacket) -> bool)
    requires
        forall|i: int| 0 <= i < s.len() ==> !f(#[trigger] s[i]),
    ensures
        s.filter(f) == Seq::<LogicalPacket>::empty(),
    decreases s.len(),
{
    reveal(Seq::filter);
    if s.len() > 0 {
        assert forall|i: int| 0 <= i < s.drop_last().len() implies !f(#[trigger] s.drop_last()[i]) by {
            assert(s.drop_last()[i] == s[i]);
        }
        lemma_filter_none(s.drop_last(), f);
        assert(!f(s[s.len() - 1]));
    }
}

} // verus!
