//! What happens to all the peers of a pool at once.

use super::conn_pool::{conn_list, conns_of, holds_id, ConnPool};
use super::model::{
    close_step, extra_close_step, extra_reconcile_step, idle_step, plus, reconcile_step, ExtraSlot,
    Gate, PoolMetrics, SlotView,
};
use super::records::{lists, records_keys, records_put, records_take, PeerRecord};
use super::shared::Shared;
use crate::endpoint::EndpointId;
use vstd::prelude::*;

verus! {

/// The record of a peer after a step of its slot and of its secondary protocols.
pub open spec fn stepped(
    a: PeerRecord,
    b: PeerRecord,
    f: spec_fn(SlotView) -> SlotView,
    g: spec_fn(ExtraSlot) -> ExtraSlot,
) -> bool {
    &&& a.slot is Some == b.slot is Some
    &&& a.slot is Some ==> b.slot->Some_0@ == f(a.slot->Some_0@)
    &&& b.extra@.len() == a.extra@.len()
    &&& forall|i: int|
        0 <= i < a.extra@.len() ==> (#[trigger] b.extra@[i]).0 == a.extra@[i].0 && b.extra@[i].1
            == g(a.extra@[i].1)
}

/// What the membership gate says of a peer when it lets in those of a list.
pub open spec fn gate_of(allowed: Seq<EndpointId>, generation: u64, peer: EndpointId) -> Gate {
    Gate { allows: allowed.contains(peer), generation }
}

pub open spec fn is_open(conn: Option<u64>, live: Seq<u64>) -> bool {
    conn matches Some(c) && live.contains(c)
}

/// What reconciling does to a slot.
pub open spec fn reconciled(gate: Gate, live: Seq<u64>) -> spec_fn(SlotView) -> SlotView {
    |s: SlotView| reconcile_step(s, super::slot::zero_metrics(), gate, is_open(s.conn, live)).0
}

pub open spec fn extra_reconciled(gate: Gate) -> spec_fn(ExtraSlot) -> ExtraSlot {
    |s: ExtraSlot| extra_reconcile_step(s, gate).0
}

/// The packets that wait for a peer.
pub open spec fn waiting(r: PeerRecord) -> nat {
    match r.slot {
        Some(s) => s@.buffer.len(),
        None => 0,
    }
}

/// The packets that wait for refused peers.
pub open spec fn refused_packets(
    recs: Map<EndpointId, PeerRecord>,
    keys: Seq<EndpointId>,
    allowed: Seq<EndpointId>,
) -> nat
    decreases keys.len(),
{
    if keys.len() == 0 {
        0
    } else {
        refused_packets(recs, keys.drop_last(), allowed) + (if allowed.contains(keys.last()) {
            0
        } else {
            waiting(recs[keys.last()])
        })
    }
}

/// The connections of refused peers.
pub open spec fn refused_conns(
    recs: Map<EndpointId, PeerRecord>,
    keys: Seq<EndpointId>,
    allowed: Seq<EndpointId>,
) -> Seq<u64>
    decreases keys.len(),
{
    if keys.len() == 0 {
        Seq::empty()
    } else if allowed.contains(keys.last()) {
        refused_conns(recs, keys.drop_last(), allowed)
    } else {
        refused_conns(recs, keys.drop_last(), allowed) + conns_of(recs[keys.last()])
    }
}

/// The connections of all peers.
pub open spec fn all_conns(recs: Map<EndpointId, PeerRecord>, keys: Seq<EndpointId>) -> Seq<u64>
    decreases keys.len(),
{
    if keys.len() == 0 {
        Seq::empty()
    } else {
        all_conns(recs, keys.drop_last()) + conns_of(recs[keys.last()])
    }
}

/// The sweeper closes the connection of this peer.
pub open spec fn goes_idle(sh: Shared, peer: EndpointId, r: PeerRecord, now: u64) -> bool {
    r.slot matches Some(s) && super::model::is_idle(
        s@,
        sh.of(peer).keep_alive,
        sh.idle_timeout,
        now,
    )
}

/// The connections of idle peers.
pub open spec fn idle_conns(
    sh: Shared,
    recs: Map<EndpointId, PeerRecord>,
    keys: Seq<EndpointId>,
    now: u64,
) -> Seq<u64>
    decreases keys.len(),
{
    if keys.len() == 0 {
        Seq::empty()
    } else {
        let rest = idle_conns(sh, recs, keys.drop_last(), now);
        let r = recs[keys.last()];
        if goes_idle(sh, keys.last(), r, now) && r.slot->Some_0.conn is Some {
            rest.push(r.slot->Some_0.conn->Some_0)
        } else {
            rest
        }
    }
}

fn peer_in(v: &[EndpointId], p: EndpointId) -> (b: bool)
    ensures
        b == v@.contains(p),
{
    let mut i: usize = 0;
    while i < v.len()
        invariant
            i <= v@.len(),
            forall|j: int| 0 <= j < i ==> v@[j] != p,
        decreases v.len() - i,
    {
        if v[i].0 == p.0 && v[i].1 == p.1 {
            return true;
        }
        i += 1;
    }
    false
}

fn push_all(v: &mut Vec<u64>, more: &[u64])
    ensures
        final(v)@ == old(v)@ + more@,
{
    let mut i: usize = 0;
    assert(v@ =~= old(v)@ + more@.take(0));
    while i < more.len()
        invariant
            i <= more@.len(),
            v@ == old(v)@ + more@.take(i as int),
        decreases more.len() - i,
    {
        v.push(more[i]);
        i += 1;
        assert(v@ =~= old(v)@ + more@.take(i as int));
    }
    assert(more@.take(i as int) =~= more@);
}

proof fn lemma_not_yet(keys: Seq<EndpointId>, i: int)
    requires
        keys.no_duplicates(),
        0 <= i < keys.len(),
    ensures
        !keys.take(i).contains(keys[i]),
{
    if keys.take(i).contains(keys[i]) {
        let j = choose|j: int| 0 <= j < i && keys.take(i)[j] == keys[i];
        assert(keys[j] == keys[i]);
    }
}

proof fn lemma_take_more(keys: Seq<EndpointId>, i: int, k: EndpointId)
    requires
        0 <= i < keys.len(),
    ensures
        keys.take(i + 1).contains(k) == (keys.take(i).contains(k) || k == keys[i]),
        keys.take(i + 1).drop_last() == keys.take(i),
{
    let a = keys.take(i);
    let b = keys.take(i + 1);
    assert(b.drop_last() =~= a);
    if a.contains(k) {
        let j = choose|j: int| 0 <= j < a.len() && a[j] == k;
        assert(b[j] == k);
    }
    if b.contains(k) {
        let j = choose|j: int| 0 <= j < b.len() && b[j] == k;
        if j < i {
            assert(a[j] == k);
        }
    }
    assert(b[i] == keys[i]);
}

impl PeerRecord {
    /// Reconciles a record with the membership gate.
    fn reconcile(&mut self, m: &mut PoolMetrics, gate: Gate, live: &[u64])
        requires
            old(self).wf(),
        ensures
            final(self).wf(),
            stepped(*old(self), *final(self), reconciled(gate, live@), extra_reconciled(gate)),
            *final(m) == (PoolMetrics {
                packets_dropped_blocked: plus(
                    old(m).packets_dropped_blocked,
                    (if gate.allows {
                        0
                    } else {
                        waiting(*old(self))
                    }),
                ),
                ..*old(m)
            }),
    {
        let ghost was = *self;
        if let Some(s) = &mut self.slot {
            let open = match s.conn {
                Some(c) => holds_id(live, c),
                None => false,
            };
            s.reconcile(m, gate, open);
        }
        let mut i: usize = 0;
        let ghost slot = self.slot;
        while i < self.extra.len()
            invariant
                self.extra@.len() == was.extra@.len(),
                i <= self.extra@.len(),
                forall|j: int|
                    0 <= j < i ==> (#[trigger] self.extra@[j]).0 == was.extra@[j].0
                        && self.extra@[j].1 == extra_reconcile_step(was.extra@[j].1, gate).0,
                forall|j: int|
                    i <= j < self.extra@.len() ==> #[trigger] self.extra@[j] == was.extra@[j],
                self.slot == slot,
            decreases self.extra.len() - i,
        {
            let mut e = self.extra[i].1;
            e.reconcile(gate);
            self.extra[i].1 = e;
            i += 1;
        }
    }

    /// Closes a record's connections.
    fn close(&mut self)
        requires
            old(self).wf(),
        ensures
            final(self).wf(),
            stepped(*old(self), *final(self), closed(), extra_closed()),
    {
        let ghost was = *self;
        if let Some(s) = &mut self.slot {
            s.close();
        }
        let mut i: usize = 0;
        let ghost slot = self.slot;
        while i < self.extra.len()
            invariant
                self.extra@.len() == was.extra@.len(),
                i <= self.extra@.len(),
                forall|j: int|
                    0 <= j < i ==> (#[trigger] self.extra@[j]).0 == was.extra@[j].0
                        && self.extra@[j].1 == extra_close_step(was.extra@[j].1).0,
                forall|j: int|
                    i <= j < self.extra@.len() ==> #[trigger] self.extra@[j] == was.extra@[j],
                self.slot == slot,
            decreases self.extra.len() - i,
        {
            let mut e = self.extra[i].1;
            e.close();
            self.extra[i].1 = e;
            i += 1;
        }
    }
}

/// What closing does to a slot.
pub open spec fn closed() -> spec_fn(SlotView) -> SlotView {
    |s: SlotView| close_step(s).0
}

pub open spec fn extra_closed() -> spec_fn(ExtraSlot) -> ExtraSlot {
    |s: ExtraSlot| extra_close_step(s).0
}

/// What the sweeper does to a slot.
pub open spec fn idled(kept: bool, timeout: u64, now: u64) -> spec_fn(SlotView) -> SlotView {
    |s: SlotView| idle_step(s, kept, timeout, now).0
}

pub open spec fn extra_same() -> spec_fn(ExtraSlot) -> ExtraSlot {
    |s: ExtraSlot| s
}

impl ConnPool {
    /// Membership or policy changed: peers that the membership gate refuses lose their
    /// connections and buffers, and stale blocks of peers that it admits are lifted. Hands out
    /// the connections to close.
    pub fn reconcile(
        &mut self,
        sh: &mut Shared,
        allowed: &[EndpointId],
        generation: u64,
        live: &[u64],
    ) -> (close: Vec<u64>)
        requires
            old(self).wf(),
        ensures
            final(self).wf(),
            final(self).alpn@ == old(self).alpn@,
            final(self).local == old(self).local,
            final(self).recs().dom() == old(self).recs().dom(),
            forall|k: EndpointId| #[trigger]
                old(self).recs().dom().contains(k) ==> stepped(
                    old(self).recs()[k],
                    final(self).recs()[k],
                    reconciled(gate_of(allowed@, generation, k), live@),
                    extra_reconciled(gate_of(allowed@, generation, k)),
                ),
            exists|keys: Seq<EndpointId>| #[trigger]
                lists(keys, old(self).recs()) && close@ == refused_conns(
                    old(self).recs(),
                    keys,
                    allowed@,
                ) && *final(sh) == (Shared {
                    metrics: PoolMetrics {
                        packets_dropped_blocked: plus(
                            old(sh).metrics.packets_dropped_blocked,
                            refused_packets(old(self).recs(), keys, allowed@),
                        ),
                        ..old(sh).metrics
                    },
                    ..*old(sh)
                }),
    {
        let keys = records_keys(&self.records);
        let ghost was = self.recs();
        let mut close: Vec<u64> = Vec::new();
        let mut i: usize = 0;
        proof {
            assert(keys@.take(0) =~= Seq::<EndpointId>::empty());
        }
        while i < keys.len()
            invariant
                self.alpn == old(self).alpn,
                self.local == old(self).local,
                self.wf(),
                was == old(self).recs(),
                lists(keys@, was),
                i <= keys@.len(),
                forall|k: EndpointId| #[trigger]
                    self.recs().dom().contains(k) == was.dom().contains(k),
                forall|k: EndpointId| #[trigger]
                    was.dom().contains(k) && keys@.take(i as int).contains(k) ==> stepped(
                        was[k],
                        self.recs()[k],
                        reconciled(gate_of(allowed@, generation, k), live@),
                        extra_reconciled(gate_of(allowed@, generation, k)),
                    ),
                forall|k: EndpointId| #[trigger]
                    was.dom().contains(k) && !keys@.take(i as int).contains(k) ==> self.recs()[k]
                        == was[k],
                close@ == refused_conns(was, keys@.take(i as int), allowed@),
                *sh == (Shared {
                    metrics: PoolMetrics {
                        packets_dropped_blocked: plus(
                            old(sh).metrics.packets_dropped_blocked,
                            refused_packets(was, keys@.take(i as int), allowed@),
                        ),
                        ..old(sh).metrics
                    },
                    ..*old(sh)
                }),
            decreases keys.len() - i,
        {
            let peer = keys[i];
            let ghost cur = self.recs();
            proof {
                assert(keys@.contains(keys@[i as int]));
                assert(was.dom().contains(peer));
                lemma_not_yet(keys@, i as int);
                lemma_take_more(keys@, i as int, peer);
                assert(cur[peer] == was[peer]);
            }
            let allows = peer_in(allowed, peer);
            if let Some(rec) = records_take(&mut self.records, peer) {
                let mut r = rec;
                if !allows {
                    let list = conn_list(&r);
                    push_all(&mut close, list.as_slice());
                }
                r.reconcile(&mut sh.metrics, Gate { allows, generation }, live);
                let ghost g = r;
                records_put(&mut self.records, peer, r);
                proof {
                    assert(self.recs() =~= cur.insert(peer, g));
                    assert forall|k: EndpointId| #[trigger]
                        self.recs().dom().contains(k) implies self.recs()[k].wf() by {
                        if k != peer {
                            assert(cur.dom().contains(k));
                        }
                    }
                    assert forall|k: EndpointId| #[trigger]
                        was.dom().contains(k) && keys@.take(i + 1).contains(k) implies stepped(
                        was[k],
                        self.recs()[k],
                        reconciled(gate_of(allowed@, generation, k), live@),
                        extra_reconciled(gate_of(allowed@, generation, k)),
                    ) by {
                        lemma_take_more(keys@, i as int, k);
                    }
                    assert forall|k: EndpointId| #[trigger]
                        was.dom().contains(k) && !keys@.take(i + 1).contains(k) implies self.recs()[k]
                        == was[k] by {
                        lemma_take_more(keys@, i as int, k);
                    }
                }
            }
            i += 1;
        }
        proof {
            assert(keys@.take(i as int) =~= keys@);
            assert(self.recs().dom() =~= was.dom());
        }
        close
    }

    /// Closes every peer connection (e.g. data plane down). Hands out the connections to
    /// close.
    pub fn close_all(&mut self) -> (close: Vec<u64>)
        requires
            old(self).wf(),
        ensures
            final(self).wf(),
            final(self).alpn@ == old(self).alpn@,
            final(self).local == old(self).local,
            final(self).recs().dom() == old(self).recs().dom(),
            forall|k: EndpointId| #[trigger]
                old(self).recs().dom().contains(k) ==> stepped(
                    old(self).recs()[k],
                    final(self).recs()[k],
                    closed(),
                    extra_closed(),
                ),
            exists|keys: Seq<EndpointId>| #[trigger]
                lists(keys, old(self).recs()) && close@ == all_conns(old(self).recs(), keys),
    {
        let keys = records_keys(&self.records);
        let ghost was = self.recs();
        let mut close: Vec<u64> = Vec::new();
        let mut i: usize = 0;
        proof {
            assert(keys@.take(0) =~= Seq::<EndpointId>::empty());
        }
        while i < keys.len()
            invariant
                self.alpn == old(self).alpn,
                self.local == old(self).local,
                self.wf(),
                was == old(self).recs(),
                lists(keys@, was),
                i <= keys@.len(),
                forall|k: EndpointId| #[trigger]
                    self.recs().dom().contains(k) == was.dom().contains(k),
                forall|k: EndpointId| #[trigger]
                    was.dom().contains(k) && keys@.take(i as int).contains(k) ==> stepped(
                        was[k],
                        self.recs()[k],
                        closed(),
                        extra_closed(),
                    ),
                forall|k: EndpointId| #[trigger]
                    was.dom().contains(k) && !keys@.take(i as int).contains(k) ==> self.recs()[k]
                        == was[k],
                close@ == all_conns(was, keys@.take(i as int)),
            decreases keys.len() - i,
        {
            let peer = keys[i];
            let ghost cur = self.recs();
            proof {
                assert(keys@.contains(keys@[i as int]));
                assert(was.dom().contains(peer));
                lemma_not_yet(keys@, i as int);
                lemma_take_more(keys@, i as int, peer);
                assert(cur[peer] == was[peer]);
            }
            if let Some(rec) = records_take(&mut self.records, peer) {
                let mut r = rec;
                let list = conn_list(&r);
                push_all(&mut close, list.as_slice());
                r.close();
                let ghost g = r;
                records_put(&mut self.records, peer, r);
                proof {
                    assert(self.recs() =~= cur.insert(peer, g));
                    assert forall|k: EndpointId| #[trigger]
                        self.recs().dom().contains(k) implies self.recs()[k].wf() by {
                        if k != peer {
                            assert(cur.dom().contains(k));
                        }
                    }
                    assert forall|k: EndpointId| #[trigger]
                        was.dom().contains(k) && keys@.take(i + 1).contains(k) implies stepped(
                        was[k],
                        self.recs()[k],
                        closed(),
                        extra_closed(),
                    ) by {
                        lemma_take_more(keys@, i as int, k);
                    }
                    assert forall|k: EndpointId| #[trigger]
                        was.dom().contains(k) && !keys@.take(i + 1).contains(k) implies self.recs()[k]
                        == was[k] by {
                        lemma_take_more(keys@, i as int, k);
                    }
                }
            }
            i += 1;
        }
        proof {
            assert(keys@.take(i as int) =~= keys@);
            assert(self.recs().dom() =~= was.dom());
        }
        close
    }

    /// One tick of the idle sweeper. Hands out the connections to close. Nothing happens
    /// while connections are kept alive.
    pub fn sweep_idle(&mut self, sh: &Shared, now: u64) -> (close: Vec<u64>)
        requires
            old(self).wf(),
        ensures
            final(self).wf(),
            final(self).alpn@ == old(self).alpn@,
            final(self).local == old(self).local,
            sh.keep_alive ==> final(self).recs() == old(self).recs() && close@.len() == 0,
            !sh.keep_alive ==> final(self).recs().dom() == old(self).recs().dom(),
            !sh.keep_alive ==> forall|k: EndpointId| #[trigger]
                old(self).recs().dom().contains(k) ==> stepped(
                    old(self).recs()[k],
                    final(self).recs()[k],
                    idled(sh.of(k).keep_alive, sh.idle_timeout, now),
                    extra_same(),
                ),
            !sh.keep_alive ==> exists|keys: Seq<EndpointId>| #[trigger]
                lists(keys, old(self).recs()) && close@ == idle_conns(
                    *sh,
                    old(self).recs(),
                    keys,
                    now,
                ),
    {
        let mut close: Vec<u64> = Vec::new();
        if sh.keep_alive {
            return close;
        }
        let keys = records_keys(&self.records);
        let ghost was = self.recs();
        let mut i: usize = 0;
        proof {
            assert(keys@.take(0) =~= Seq::<EndpointId>::empty());
        }
        while i < keys.len()
            invariant
                self.alpn == old(self).alpn,
                self.local == old(self).local,
                self.wf(),
                !sh.keep_alive,
                was == old(self).recs(),
                lists(keys@, was),
                i <= keys@.len(),
                forall|k: EndpointId| #[trigger]
                    self.recs().dom().contains(k) == was.dom().contains(k),
                forall|k: EndpointId| #[trigger]
                    was.dom().contains(k) && keys@.take(i as int).contains(k) ==> stepped(
                        was[k],
                        self.recs()[k],
                        idled(sh.of(k).keep_alive, sh.idle_timeout, now),
                        extra_same(),
                    ),
                forall|k: EndpointId| #[trigger]
                    was.dom().contains(k) && !keys@.take(i as int).contains(k) ==> self.recs()[k]
                        == was[k],
                close@ == idle_conns(*sh, was, keys@.take(i as int), now),
            decreases keys.len() - i,
        {
            let peer = keys[i];
            let ghost cur = self.recs();
            proof {
                assert(keys@.contains(keys@[i as int]));
                assert(was.dom().contains(peer));
                lemma_not_yet(keys@, i as int);
                lemma_take_more(keys@, i as int, peer);
                assert(cur[peer] == was[peer]);
            }
            let kept = sh.keeps_alive(peer);
            if let Some(rec) = records_take(&mut self.records, peer) {
                let mut r = rec;
                if let Some(s) = &mut r.slot {
                    if let Some(c) = s.sweep(kept, sh.idle_timeout, now) {
                        close.push(c);
                    }
                }
                let ghost g = r;
                records_put(&mut self.records, peer, r);
                proof {
                    assert(self.recs() =~= cur.insert(peer, g));
                    assert forall|k: EndpointId| #[trigger]
                        self.recs().dom().contains(k) implies self.recs()[k].wf() by {
                        if k != peer {
                            assert(cur.dom().contains(k));
                        }
                    }
                    assert forall|k: EndpointId| #[trigger]
                        was.dom().contains(k) && keys@.take(i + 1).contains(k) implies stepped(
                        was[k],
                        self.recs()[k],
                        idled(sh.of(k).keep_alive, sh.idle_timeout, now),
                        extra_same(),
                    ) by {
                        lemma_take_more(keys@, i as int, k);
                    }
                    assert forall|k: EndpointId| #[trigger]
                        was.dom().contains(k) && !keys@.take(i + 1).contains(k) implies self.recs()[k]
                        == was[k] by {
                        lemma_take_more(keys@, i as int, k);
                    }
                }
            }
            i += 1;
        }
        proof {
            assert(keys@.take(i as int) =~= keys@);
            assert(self.recs().dom() =~= was.dom());
        }
        close
    }
}

} // verus!
