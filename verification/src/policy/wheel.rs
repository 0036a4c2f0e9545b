//! Amortized expiry of tracked flows: sixteen shards of expiry nodes, each in order of
//! expiry. A packet reaps a few nodes of its own flow's shard, never the whole table.

use super::flows::{
    flows_of, is_lapsed, lapsed, track_get, track_len, track_remove, CanonKey, TrackedFlow,
};
use crate::frame::{big_endian, lemma_spans, write_number};
use std::collections::hash_map::DefaultHasher;
use std::hash::Hasher;
use vstd::prelude::*;
use vstd::std_specs::hash::DefaultHasherAdditionalSpecFns;

verus! {

pub const EXPIRY_SHARDS: usize = 16;

/// Nodes that one packet reaps at most.
pub const REAP_BUDGET: usize = 4;

/// Nodes that one tick of the sweeper reaps of each shard at most.
pub const SWEEP_BUDGET: usize = 32;

/// When to look at a flow again. Only the newest node of a flow, the one with its
/// token, can end it.
#[derive(Debug, Clone, Copy, PartialEq, Eq)]
pub struct ExpiryNode {
    pub expires_ms: u64,
    pub seq: u64,
    pub key: CanonKey,
}

/// `a` is due before `b`.
pub open spec fn sooner(a: ExpiryNode, b: ExpiryNode) -> bool {
    a.expires_ms < b.expires_ms || (a.expires_ms == b.expires_ms && a.seq < b.seq)
}

fn is_sooner(a: &ExpiryNode, b: &ExpiryNode) -> (r: bool)
    ensures
        r == sooner(*a, *b),
{
    a.expires_ms < b.expires_ms || (a.expires_ms == b.expires_ms && a.seq < b.seq)
}

/// The node that is due first stands last.
pub open spec fn latest_first(s: Seq<ExpiryNode>) -> bool {
    forall|i: int, j: int|
        #![trigger s[i], s[j]]
        0 <= i < j < s.len() ==> !sooner(s[i], s[j])
}

/// The bytes that choose a flow's shard.
pub open spec fn key_bytes(k: CanonKey) -> Seq<u8> {
    big_endian(k.0 as nat, 16).push(k.1) + big_endian(k.2 as nat, 4) + big_endian(k.3 as nat, 2)
        + big_endian(k.4 as nat, 4) + big_endian(k.5 as nat, 2)
}

/// The shard of a flow.
pub open spec fn shard_of(k: CanonKey) -> int {
    (DefaultHasher::spec_finish(seq![key_bytes(k)]) % 16) as int
}

/// A shard with one more node, in its place.
pub open spec fn with_node(s: Seq<ExpiryNode>, n: ExpiryNode) -> Seq<ExpiryNode>
    decreases s.len(),
{
    if s.len() == 0 || !sooner(n, s[0]) {
        seq![n] + s
    } else {
        seq![s[0]] + with_node(s.drop_first(), n)
    }
}

proof fn lemma_with_node(s: Seq<ExpiryNode>, n: ExpiryNode, i: int)
    requires
        0 <= i <= s.len(),
        forall|j: int| 0 <= j < i ==> sooner(n, #[trigger] s[j]),
        i < s.len() ==> !sooner(n, s[i]),
    ensures
        with_node(s, n) == s.insert(i, n),
    decreases s.len(),
{
    if i > 0 {
        assert(sooner(n, s[0]));
        let t = s.drop_first();
        assert forall|j: int| 0 <= j < i - 1 implies sooner(n, #[trigger] t[j]) by {
            assert(sooner(n, s[j + 1]));
        }
        lemma_with_node(t, n, i - 1);
    }
    assert(with_node(s, n) =~= s.insert(i, n));
}

/// The nodes and the flows that they watch.
pub struct Watch {
    pub shards: Seq<Seq<ExpiryNode>>,
    pub flows: Map<CanonKey, TrackedFlow>,
}

/// A node that has come due: its flow ends if the node is its newest and the flow is
/// idle for longer than its lifetime.
pub open spec fn after_due(
    flows: Map<CanonKey, TrackedFlow>,
    n: ExpiryNode,
    now: u64,
) -> Map<CanonKey, TrackedFlow> {
    if flows.dom().contains(n.key) && flows[n.key].seq == n.seq && lapsed(flows[n.key], now) {
        flows.remove(n.key)
    } else {
        flows
    }
}

/// One shard and the flows after at most `budget` due nodes were taken off it.
pub open spec fn reaped(
    s: Seq<ExpiryNode>,
    flows: Map<CanonKey, TrackedFlow>,
    budget: nat,
    now_ms: u64,
    now: u64,
) -> (Seq<ExpiryNode>, Map<CanonKey, TrackedFlow>)
    decreases budget,
{
    if budget == 0 || s.len() == 0 || s.last().expires_ms > now_ms {
        (s, flows)
    } else {
        reaped(s.drop_last(), after_due(flows, s.last(), now), (budget - 1) as nat, now_ms, now)
    }
}

/// [`reaped`] of shard `i`.
pub open spec fn reap_at(w: Watch, i: int, budget: nat, now_ms: u64, now: u64) -> Watch {
    let r = reaped(w.shards[i], w.flows, budget, now_ms, now);
    Watch { shards: w.shards.update(i, r.0), flows: r.1 }
}

/// Every shard from `i` on is reaped.
pub open spec fn reap_from(w: Watch, i: int, now_ms: u64, now: u64) -> Watch
    decreases EXPIRY_SHARDS - i,
{
    if i >= EXPIRY_SHARDS {
        w
    } else {
        reap_from(reap_at(w, i, SWEEP_BUDGET as nat, now_ms, now), i + 1, now_ms, now)
    }
}

/// The node is the newest of its flow.
pub open spec fn current(flows: Map<CanonKey, TrackedFlow>, n: ExpiryNode) -> bool {
    flows.dom().contains(n.key) && flows[n.key].seq == n.seq
}

/// How many nodes a shard may hold before stale ones are dropped.
pub open spec fn crowded(n: nat, flows: nat) -> bool {
    n > 256 && n > (flows / 16 + 8) * 4
}

/// The first crowded shard from `i` on is cleared of stale nodes.
pub open spec fn tidy_from(w: Watch, i: int) -> Watch
    decreases EXPIRY_SHARDS - i,
{
    if i >= EXPIRY_SHARDS {
        w
    } else if crowded(w.shards[i].len(), w.flows.dom().len()) {
        Watch {
            shards: w.shards.update(i, w.shards[i].filter(|n: ExpiryNode| current(w.flows, n))),
            flows: w.flows,
        }
    } else {
        tidy_from(w, i + 1)
    }
}

/// One tick of the sweeper.
pub open spec fn swept(w: Watch, now_ms: u64, now: u64) -> Watch {
    tidy_from(reap_from(w, 0, now_ms, now), 0)
}

pub struct ExpiryWheel {
    pub shards: Vec<Vec<ExpiryNode>>,
}

impl View for ExpiryWheel {
    type V = Seq<Seq<ExpiryNode>>;

    open spec fn view(&self) -> Seq<Seq<ExpiryNode>> {
        Seq::new(self.shards@.len(), |i: int| self.shards@[i]@)
    }
}

/// Sixteen empty shards.
pub open spec fn no_nodes() -> Seq<Seq<ExpiryNode>> {
    Seq::new(EXPIRY_SHARDS as nat, |i: int| Seq::<ExpiryNode>::empty())
}

impl ExpiryWheel {
    /// Sixteen shards, each in order.
    pub open spec fn wf(&self) -> bool {
        &&& self@.len() == EXPIRY_SHARDS
        &&& forall|i: int| 0 <= i < EXPIRY_SHARDS ==> latest_first(#[trigger] self@[i])
    }

    pub fn new() -> (w: Self)
        ensures
            w.wf(),
            w@ == no_nodes(),
    {
        let mut shards: Vec<Vec<ExpiryNode>> = Vec::new();
        let mut i: usize = 0;
        while i < EXPIRY_SHARDS
            invariant
                i <= EXPIRY_SHARDS,
                shards@.len() == i,
                forall|j: int| 0 <= j < i ==> (#[trigger] shards@[j])@.len() == 0,
            decreases EXPIRY_SHARDS - i,
        {
            shards.push(Vec::new());
            i += 1;
        }
        let w = ExpiryWheel { shards };
        assert(w@ =~= no_nodes()) by {
            assert forall|j: int| 0 <= j < 16 implies #[trigger] w@[j] == Seq::<
                ExpiryNode,
            >::empty() by {
                assert(w@[j] =~= Seq::<ExpiryNode>::empty());
            }
        }
        w
    }

    /// The shard of a flow.
    pub fn shard(key: &CanonKey) -> (i: usize)
        ensures
            i == shard_of(*key),
            i < EXPIRY_SHARDS,
    {
        let mut bytes: Vec<u8> = Vec::new();
        proof {
            lemma_spans();
        }
        write_number(&mut bytes, key.0, 16);
        assert(bytes@ =~= big_endian(key.0 as nat, 16));
        bytes.push(key.1);
        write_number(&mut bytes, key.2 as u128, 4);
        write_number(&mut bytes, key.3 as u128, 2);
        write_number(&mut bytes, key.4 as u128, 4);
        write_number(&mut bytes, key.5 as u128, 2);
        assert(bytes@ =~= key_bytes(*key));
        let mut h = DefaultHasher::new();
        h.write(bytes.as_slice());
        assert(h@ =~= seq![key_bytes(*key)]);
        let n: u64 = h.finish() % 16;
        n as usize
    }

    /// Adds a node to its flow's shard.
    pub fn push(&mut self, key: CanonKey, expires_ms: u64, seq: u64)
        requires
            old(self).wf(),
        ensures
            final(self).wf(),
            final(self)@ == old(self)@.update(
                shard_of(key),
                with_node(old(self)@[shard_of(key)], (ExpiryNode { expires_ms, seq, key })),
            ),
    {
        let at: usize = ExpiryWheel::shard(&key);
        let node = ExpiryNode { expires_ms, seq, key };
        let ghost was = self@;
        let ghost s = self@[at as int];
        let mut shard = self.shards.remove(at);
        let mut i: usize = 0;
        while i < shard.len() && is_sooner(&node, &shard[i])
            invariant
                i <= shard@.len(),
                shard@ == s,
                forall|j: int| 0 <= j < i ==> sooner(node, #[trigger] s[j]),
            decreases shard.len() - i,
        {
            i += 1;
        }
        shard.insert(i, node);
        proof {
            lemma_with_node(s, node, i as int);
            assert(latest_first(was[at as int]));
            let t = shard@;
            assert forall|a: int, b: int|
                #![trigger t[a], t[b]]
                0 <= a < b < t.len() implies !sooner(t[a], t[b]) by {
                let x = if a > i {
                    a - 1
                } else {
                    a
                };
                let y = if b > i {
                    b - 1
                } else {
                    b
                };
                if a != i && b != i {
                    assert(t[a] == s[x] && t[b] == s[y]);
                } else if a == i {
                    assert(t[b] == s[y]);
                    if y > i {
                        assert(!sooner(s[i as int], s[y]));
                    }
                } else {
                    assert(t[a] == s[a]);
                }
            }
        }
        self.shards.insert(at, shard);
        proof {
            assert(self@ =~= was.update(at as int, with_node(s, node)));
        }
    }

    /// Takes at most `budget` due nodes off one shard, and ends the flows whose time has
    /// come.
    pub fn reap_shard(
        &mut self,
        at: usize,
        budget: usize,
        now_ms: u64,
        now: u64,
        flows: &mut dashmap::DashMap<CanonKey, TrackedFlow>,
    )
        requires
            old(self).wf(),
            at < EXPIRY_SHARDS,
        ensures
            final(self).wf(),
            (Watch { shards: final(self)@, flows: flows_of(*final(flows)) }) == reap_at(
                (Watch { shards: old(self)@, flows: flows_of(*old(flows)) }),
                at as int,
                budget as nat,
                now_ms,
                now,
            ),
    {
        let ghost was = self@;
        let ghost s0 = self@[at as int];
        let mut shard = self.shards.remove(at);
        let mut left: usize = budget;
        proof {
            assert(latest_first(was[at as int]));
        }
        let ghost goal = reaped(s0, flows_of(*flows), budget as nat, now_ms, now);
        while left > 0 && shard.len() > 0 && shard[shard.len() - 1].expires_ms <= now_ms
            invariant
                latest_first(shard@),
                goal == reaped(shard@, flows_of(*flows), left as nat, now_ms, now),
            decreases left,
        {
            let ghost cur = shard@;
            let node = shard.remove(shard.len() - 1);
            proof {
                assert(shard@ =~= cur.drop_last());
                assert(latest_first(shard@)) by {
                    assert forall|a: int, b: int|
                        #![trigger shard@[a], shard@[b]]
                        0 <= a < b < shard@.len() implies !sooner(shard@[a], shard@[b]) by {
                        assert(!sooner(cur[a], cur[b]));
                    }
                }
            }
            if let Some(f) = track_get(flows, &node.key) {
                if f.seq == node.seq && is_lapsed(&f, now) {
                    track_remove(flows, &node.key);
                }
            }
            left -= 1;
        }
        let ghost end = shard@;
        self.shards.insert(at, shard);
        proof {
            assert(self@ =~= was.update(at as int, end));
        }
    }

    /// One tick of the sweeper: every shard is reaped, and the first shard that stale
    /// nodes crowd is cleared of them.
    pub fn sweep(
        &mut self,
        now_ms: u64,
        now: u64,
        flows: &mut dashmap::DashMap<CanonKey, TrackedFlow>,
    )
        requires
            old(self).wf(),
        ensures
            final(self).wf(),
            (Watch { shards: final(self)@, flows: flows_of(*final(flows)) }) == swept(
                (Watch { shards: old(self)@, flows: flows_of(*old(flows)) }),
                now_ms,
                now,
            ),
    {
        let ghost w0 = Watch { shards: self@, flows: flows_of(*flows) };
        let ghost w1 = reap_from(w0, 0, now_ms, now);
        let mut i: usize = 0;
        while i < EXPIRY_SHARDS
            invariant
                i <= EXPIRY_SHARDS,
                self.wf(),
                w1 == reap_from(
                    (Watch { shards: self@, flows: flows_of(*flows) }),
                    i as int,
                    now_ms,
                    now,
                ),
            decreases EXPIRY_SHARDS - i,
        {
            self.reap_shard(i, SWEEP_BUDGET, now_ms, now, flows);
            i += 1;
        }
        let mut k: usize = 0;
        while k < EXPIRY_SHARDS
            invariant
                k <= EXPIRY_SHARDS,
                self.wf(),
                w1 == (Watch { shards: self@, flows: flows_of(*flows) }),
                w1 == reap_from(w0, 0, now_ms, now),
                w0 == (Watch { shards: old(self)@, flows: flows_of(*old(flows)) }),
                tidy_from(w1, 0) == tidy_from(w1, k as int),
            decreases EXPIRY_SHARDS - k,
        {
            let live: usize = track_len(flows) / EXPIRY_SHARDS + 8;
            let n: usize = self.shards[k].len();
            assert(self@[k as int].len() == n);
            if n > 256 && n / 4 >= live && n > live * 4 {
                self.drop_stale(k, flows);
                return;
            }
            k += 1;
        }
    }

    /// Clears a shard of stale nodes.
    fn drop_stale(&mut self, at: usize, flows: &dashmap::DashMap<CanonKey, TrackedFlow>)
        requires
            old(self).wf(),
            at < EXPIRY_SHARDS,
        ensures
            final(self).wf(),
            final(self)@ == old(self)@.update(
                at as int,
                old(self)@[at as int].filter(|n: ExpiryNode| current(flows_of(*flows), n)),
            ),
    {
        let ghost was = self@;
        let nodes = self.shards.remove(at);
        let mut kept: Vec<ExpiryNode> = Vec::new();
        let mut i: usize = 0;
        let ghost f = |n: ExpiryNode| current(flows_of(*flows), n);
        proof {
            assert(latest_first(was[at as int]));
            reveal(Seq::filter);
        }
        while i < nodes.len()
            invariant
                i <= nodes@.len(),
                f == (|n: ExpiryNode| current(flows_of(*flows), n)),
                kept@ == nodes@.take(i as int).filter(f),
                latest_first(nodes@),
                latest_first(kept@),
                forall|a: int| 0 <= a < kept@.len() ==> nodes@.take(i as int).contains(#[trigger] kept@[a]),
            decreases nodes.len() - i,
        {
            let n = nodes[i];
            let ghost before = kept@;
            proof {
                reveal(Seq::filter);
                assert(nodes@.take(i + 1).drop_last() =~= nodes@.take(i as int));
                assert(nodes@.take(i + 1).last() == n);
            }
            let keep = match track_get(flows, &n.key) {
                Some(e) => e.seq == n.seq,
                None => false,
            };
            if keep {
                kept.push(n);
                proof {
                    assert forall|a: int, b: int|
                        #![trigger kept@[a], kept@[b]]
                        0 <= a < b < kept@.len() implies !sooner(kept@[a], kept@[b]) by {
                        if b == before.len() {
                            assert(kept@[a] == before[a]);
                            let t = nodes@.take(i as int);
                            assert(t.contains(before[a]));
                            let x = choose|x: int| 0 <= x < t.len() && t[x] == before[a];
                            assert(nodes@[x] == before[a]);
                            assert(!sooner(nodes@[x], nodes@[i as int]));
                        } else {
                            assert(!sooner(before[a], before[b]));
                        }
                    }
                }
            }
            proof {
                let t = nodes@.take(i as int);
                let t2 = nodes@.take(i + 1);
                assert forall|a: int| 0 <= a < kept@.len() implies t2.contains(#[trigger] kept@[a]) by {
                    if a < before.len() {
                        assert(t.contains(before[a]));
                        let x = choose|x: int| 0 <= x < t.len() && t[x] == before[a];
                        assert(t2[x] == before[a]);
                    } else {
                        assert(t2[i as int] == n);
                    }
                }
            }
            i += 1;
        }
        proof {
            assert(nodes@.take(i as int) =~= nodes@);
        }
        let ghost end = kept@;
        self.shards.insert(at, kept);
        proof {
            assert(self@ =~= was.update(at as int, end));
        }
    }

    /// Forgets every node.
    pub fn clear(&mut self)
        ensures
            final(self).wf(),
            final(self)@ == no_nodes(),
    {
        *self = ExpiryWheel::new();
    }
}

/// Nodes are reaped in the order in which they come due: the node that is taken is due
/// no later than any node that stays.
pub proof fn law_earliest_first(s: Seq<ExpiryNode>, i: int)
    requires
        latest_first(s),
        0 <= i < s.len(),
    ensures
        !sooner(s[i], s.last()),
{
}

/// Reaping ends only flows that have been idle for longer than their lifetime, and
/// changes no other.
pub proof fn law_reap_ends_lapsed_only(
    s: Seq<ExpiryNode>,
    flows: Map<CanonKey, TrackedFlow>,
    budget: nat,
    now_ms: u64,
    now: u64,
    k: CanonKey,
)
    requires
        flows.dom().contains(k),
        !lapsed(flows[k], now),
    ensures
        reaped(s, flows, budget, now_ms, now).1.dom().contains(k),
        reaped(s, flows, budget, now_ms, now).1[k] == flows[k],
    decreases budget,
{
    if !(budget == 0 || s.len() == 0 || s.last().expires_ms > now_ms) {
        law_reap_ends_lapsed_only(
            s.drop_last(),
            after_due(flows, s.last(), now),
            (budget - 1) as nat,
            now_ms,
            now,
            k,
        );
    }
}

/// One packet reaps a bounded number of nodes.
pub proof fn law_reap_bounded(
    s: Seq<ExpiryNode>,
    flows: Map<CanonKey, TrackedFlow>,
    budget: nat,
    now_ms: u64,
    now: u64,
)
    ensures
        s.len() <= reaped(s, flows, budget, now_ms, now).0.len() + budget,
        reaped(s, flows, budget, now_ms, now).0.len() <= s.len(),
    decreases budget,
{
    if !(budget == 0 || s.len() == 0 || s.last().expires_ms > now_ms) {
        law_reap_bounded(
            s.drop_last(),
            after_due(flows, s.last(), now),
            (budget - 1) as nat,
            now_ms,
            now,
        );
    }
}

/// Every flow of `a` is in `b` as it is.
pub open spec fn within(a: Map<CanonKey, TrackedFlow>, b: Map<CanonKey, TrackedFlow>) -> bool {
    forall|k: CanonKey| #[trigger]
        a.dom().contains(k) ==> b.dom().contains(k) && a[k] == b[k]
}

/// Reaping adds and changes no flow.
pub proof fn lemma_reaped_within(
    s: Seq<ExpiryNode>,
    flows: Map<CanonKey, TrackedFlow>,
    budget: nat,
    now_ms: u64,
    now: u64,
)
    ensures
        within(reaped(s, flows, budget, now_ms, now).1, flows),
    decreases budget,
{
    if !(budget == 0 || s.len() == 0 || s.last().expires_ms > now_ms) {
        lemma_reaped_within(
            s.drop_last(),
            after_due(flows, s.last(), now),
            (budget - 1) as nat,
            now_ms,
            now,
        );
    }
}

pub proof fn lemma_reap_from_within(w: Watch, i: int, now_ms: u64, now: u64)
    ensures
        within(reap_from(w, i, now_ms, now).flows, w.flows),
    decreases EXPIRY_SHARDS - i,
{
    if i < EXPIRY_SHARDS {
        lemma_reaped_within(w.shards[i], w.flows, SWEEP_BUDGET as nat, now_ms, now);
        lemma_reap_from_within(
            reap_at(w, i, SWEEP_BUDGET as nat, now_ms, now),
            i + 1,
            now_ms,
            now,
        );
    }
}

pub proof fn lemma_tidy_keeps_flows(w: Watch, i: int)
    ensures
        tidy_from(w, i).flows == w.flows,
    decreases EXPIRY_SHARDS - i,
{
    if i < EXPIRY_SHARDS && !crowded(w.shards[i].len(), w.flows.dom().len()) {
        lemma_tidy_keeps_flows(w, i + 1);
    }
}

/// A tick of the sweeper ends only flows that have been idle for longer than their
/// lifetime, adds none and changes none.
pub proof fn law_sweep_ends_lapsed_only(w: Watch, now_ms: u64, now: u64, k: CanonKey)
    ensures
        within(swept(w, now_ms, now).flows, w.flows),
        w.flows.dom().contains(k) && !lapsed(w.flows[k], now) ==> swept(
            w,
            now_ms,
            now,
        ).flows.dom().contains(k),
{
    lemma_reap_from_within(w, 0, now_ms, now);
    lemma_tidy_keeps_flows(reap_from(w, 0, now_ms, now), 0);
    if w.flows.dom().contains(k) && !lapsed(w.flows[k], now) {
        lemma_reap_from_keeps(w, 0, now_ms, now, k);
    }
}

proof fn lemma_reap_from_keeps(w: Watch, i: int, now_ms: u64, now: u64, k: CanonKey)
    requires
        w.flows.dom().contains(k),
        !lapsed(w.flows[k], now),
    ensures
        reap_from(w, i, now_ms, now).flows.dom().contains(k),
    decreases EXPIRY_SHARDS - i,
{
    if i < EXPIRY_SHARDS {
        law_reap_ends_lapsed_only(w.shards[i], w.flows, SWEEP_BUDGET as nat, now_ms, now, k);
        lemma_reap_from_keeps(
            reap_at(w, i, SWEEP_BUDGET as nat, now_ms, now),
            i + 1,
            now_ms,
            now,
            k,
        );
    }
}

} // verus!
