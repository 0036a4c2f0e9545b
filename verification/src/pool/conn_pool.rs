//! The pool: every peer's connection state, by step.

use super::model::{
    adopt_step, dialed_step, extra_dialed_step, extra_failed_step, extra_get_step, extra_wait_step,
    failed_step, get_step, initiates, live_conn, no_extra, no_slot, revoke_step, send_step,
    touch_step, wait_step, DialFailure, DialStep, ExtraSlot, Gate, GetStep, PeerConnState, SendStep,
    SlotView, WaitOutcome, WaitStep,
};
use super::records::{
    extra_at, find_extra, lists, no_records, put_extra, records_keys, records_new, records_of,
    records_put, records_take, tallies_of, PeerRecord, PeerTally,
};
use super::shared::Shared;
use super::slot::{contents, state_name, PeerSlot};
use crate::chance::random_u64;
use crate::endpoint::EndpointId;
use crate::octets::same_bytes;
use std::collections::VecDeque;
use vstd::prelude::*;
use vstd::string::*;

verus! {

/// A snapshot of a peer's connection state.
#[derive(Debug)]
pub struct PeerConnSnapshot {
    pub state: String,
    pub keep_alive: bool,
    pub last_activity_secs_ago: u64,
    pub live: bool,
    pub path: String,
}

pub struct ConnPool {
    pub local: EndpointId,
    pub alpn: Vec<u8>,
    pub records: dashmap::DashMap<(u128, u128), PeerRecord>,
}

/// The slot of a record, a new one where it has none.
pub open spec fn slot_of(r: PeerRecord, now: u64) -> SlotView {
    match r.slot {
        Some(s) => s@,
        None => no_slot(now),
    }
}

/// The slot of a peer, a new one where it has none.
pub open spec fn slot_view(recs: Map<EndpointId, PeerRecord>, peer: EndpointId, now: u64) -> SlotView {
    if recs.dom().contains(peer) {
        slot_of(recs[peer], now)
    } else {
        no_slot(now)
    }
}

/// The slot of a peer on a secondary protocol, a new one where it has none.
pub open spec fn extra_view(
    recs: Map<EndpointId, PeerRecord>,
    peer: EndpointId,
    alpn: Seq<u8>,
) -> ExtraSlot {
    if recs.dom().contains(peer) {
        extra_at(recs[peer].extra@, alpn)
    } else {
        no_extra()
    }
}

/// The peer has a slot for the default protocol.
pub open spec fn has_slot(recs: Map<EndpointId, PeerRecord>, peer: EndpointId) -> bool {
    recs.dom().contains(peer) && recs[peer].slot is Some
}

/// Only the record of one peer changed, and it has a slot with the given state.
pub open spec fn slot_set(
    old_recs: Map<EndpointId, PeerRecord>,
    new_recs: Map<EndpointId, PeerRecord>,
    peer: EndpointId,
    s: SlotView,
) -> bool {
    &&& new_recs == old_recs.insert(peer, new_recs[peer])
    &&& new_recs[peer].slot matches Some(t) && t@ == s
    &&& forall|a: Seq<u8>| #[trigger]
        extra_at(new_recs[peer].extra@, a) == extra_view(old_recs, peer, a)
}

/// Only the record of one peer changed, and only one protocol of it.
pub open spec fn extra_set(
    old_recs: Map<EndpointId, PeerRecord>,
    new_recs: Map<EndpointId, PeerRecord>,
    peer: EndpointId,
    alpn: Seq<u8>,
    s: ExtraSlot,
) -> bool {
    &&& new_recs == old_recs.insert(peer, new_recs[peer])
    &&& forall|now: u64| #[trigger]
        slot_of(new_recs[peer], now) == slot_view(old_recs, peer, now)
    &&& has_slot(new_recs, peer) == has_slot(old_recs, peer)
    &&& forall|a: Seq<u8>| #[trigger]
        extra_at(new_recs[peer].extra@, a) == (if a == alpn {
            s
        } else {
            extra_view(old_recs, peer, a)
        })
}

/// Whether a list holds an id.
pub fn holds_id(v: &[u64], id: u64) -> (b: bool)
    ensures
        b == v@.contains(id),
{
    let mut i: usize = 0;
    while i < v.len()
        invariant
            i <= v@.len(),
            forall|j: int| 0 <= j < i ==> v@[j] != id,
        decreases v.len() - i,
    {
        if v[i] == id {
            return true;
        }
        i += 1;
    }
    false
}

/// The record has an open connection among `live`.
pub open spec fn is_live(r: PeerRecord, live: Seq<u64>) -> bool {
    r.slot matches Some(s) && s.conn matches Some(c) && live.contains(c)
}

/// How many of the peers have an open connection.
pub open spec fn live_count(
    recs: Map<EndpointId, PeerRecord>,
    keys: Seq<EndpointId>,
    live: Seq<u64>,
) -> nat
    decreases keys.len(),
{
    if keys.len() == 0 {
        0
    } else {
        live_count(recs, keys.drop_last(), live) + (if is_live(recs[keys.last()], live) {
            1nat
        } else {
            0
        })
    }
}

/// The records and the shared state after a dial failed, with the jitter that a random
/// number makes.
pub open spec fn dial_failure(
    before: (Map<EndpointId, PeerRecord>, Shared),
    after: (Map<EndpointId, PeerRecord>, Shared),
    peer: EndpointId,
    failure: DialFailure,
    generation: u64,
    now: u64,
    random: u64,
) -> bool {
    let step = failed_step(
        slot_view(before.0, peer, now),
        before.1.metrics,
        failure,
        generation,
        now,
        random,
    );
    &&& slot_set(before.0, after.0, peer, step.0)
    &&& after.1 == (Shared { metrics: step.1, ..before.1 })
}

/// [`dial_failure`] on a secondary protocol.
pub open spec fn extra_dial_failure(
    before: (Map<EndpointId, PeerRecord>, Shared),
    after: (Map<EndpointId, PeerRecord>, Shared),
    peer: EndpointId,
    alpn: Seq<u8>,
    failure: DialFailure,
    generation: u64,
    now: u64,
    random: u64,
) -> bool {
    let step = extra_failed_step(
        extra_view(before.0, peer, alpn),
        before.1.metrics,
        failure,
        generation,
        now,
        random,
    );
    &&& extra_set(before.0, after.0, peer, alpn, step.0)
    &&& after.1 == (Shared { metrics: step.1, ..before.1 })
}

impl ConnPool {
    pub open spec fn recs(&self) -> Map<EndpointId, PeerRecord> {
        records_of(self.records)
    }

    pub open spec fn wf(&self) -> bool {
        forall|k: EndpointId| #[trigger] self.recs().dom().contains(k) ==> self.recs()[k].wf()
    }

    pub fn new(local: EndpointId, alpn: Vec<u8>) -> (p: Self)
        ensures
            p.wf(),
            p.recs() == no_records(),
            p.local == local,
            p.alpn == alpn,
    {
        ConnPool { local, alpn, records: records_new() }
    }

    /// Takes a peer's record out; a new one where it has none.
    fn take(&mut self, peer: EndpointId) -> (r: PeerRecord)
        requires
            old(self).wf(),
        ensures
            final(self).wf(),
            r.wf(),
            final(self).recs() == old(self).recs().remove(peer),
            final(self).local == old(self).local,
            final(self).alpn == old(self).alpn,
            old(self).recs().dom().contains(peer) ==> r == old(self).recs()[peer],
            !old(self).recs().dom().contains(peer) ==> r.slot is None && r.extra@.len() == 0,
    {
        match records_take(&mut self.records, peer) {
            Some(r) => r,
            None => PeerRecord::new(),
        }
    }

    fn put(&mut self, peer: EndpointId, r: PeerRecord)
        requires
            old(self).wf(),
            r.wf(),
        ensures
            final(self).wf(),
            final(self).recs() == old(self).recs().insert(peer, r),
            final(self).local == old(self).local,
            final(self).alpn == old(self).alpn,
    {
        records_put(&mut self.records, peer, r);
        proof {
            assert forall|k: EndpointId| #[trigger]
                self.recs().dom().contains(k) implies self.recs()[k].wf() by {
                if k != peer {
                    assert(old(self).recs().dom().contains(k));
                }
            }
        }
    }

    fn take_slot(&mut self, peer: EndpointId, now: u64) -> (r: (PeerSlot, Vec<(Vec<u8>, ExtraSlot)>))
        requires
            old(self).wf(),
        ensures
            final(self).wf(),
            final(self).recs() == old(self).recs().remove(peer),
            final(self).local == old(self).local,
            final(self).alpn == old(self).alpn,
            r.0.wf(),
            r.0@ == slot_view(old(self).recs(), peer, now),
            forall|a: Seq<u8>| #[trigger]
                extra_at(r.1@, a) == extra_view(old(self).recs(), peer, a),
    {
        let rec = self.take(peer);
        let slot = match rec.slot {
            Some(s) => s,
            None => PeerSlot::new(now),
        };
        (slot, rec.extra)
    }

    fn put_slot(
        &mut self,
        peer: EndpointId,
        slot: PeerSlot,
        extra: Vec<(Vec<u8>, ExtraSlot)>,
        Ghost(before): Ghost<Map<EndpointId, PeerRecord>>,
    )
        requires
            old(self).wf(),
            slot.wf(),
            old(self).recs() == before.remove(peer),
            forall|a: Seq<u8>| #[trigger] extra_at(extra@, a) == extra_view(before, peer, a),
        ensures
            final(self).wf(),
            final(self).local == old(self).local,
            final(self).alpn == old(self).alpn,
            slot_set(before, final(self).recs(), peer, slot@),
    {
        let ghost rec = PeerRecord { slot: Some(slot), extra };
        self.put(peer, PeerRecord { slot: Some(slot), extra });
        assert(before.remove(peer).insert(peer, rec) =~= before.insert(peer, rec));
    }

    /// Whether the protocol is the pool's default one.
    pub fn is_default(&self, alpn: &[u8]) -> (b: bool)
        ensures
            b == (alpn@ == self.alpn@),
    {
        same_bytes(alpn, self.alpn.as_slice())
    }

    /// A connection on the default protocol is asked for. `live` tells whether the
    /// connection that the pool holds, if any, is still open.
    pub fn get(&mut self, sh: &mut Shared, peer: EndpointId, gate: Gate, live: bool, now: u64) -> (r: GetStep)
        requires
            old(self).wf(),
        ensures
            final(self).wf(),
            final(self).alpn@ == old(self).alpn@,
            final(self).local == old(self).local,
            ({
                let step = get_step(
                    slot_view(old(self).recs(), peer, now),
                    old(sh).metrics,
                    gate,
                    live,
                    now,
                );
                &&& slot_set(old(self).recs(), final(self).recs(), peer, step.0)
                &&& *final(sh) == (Shared { metrics: step.1, ..*old(sh) })
                &&& r == step.2
            }),
    {
        let ghost before = self.recs();
        let (mut slot, extra) = self.take_slot(peer, now);
        let r = slot.begin_get(&mut sh.metrics, gate, live, now);
        self.put_slot(peer, slot, extra, Ghost(before));
        r
    }

    fn take_extra(&mut self, peer: EndpointId, alpn: &[u8]) -> (r: (ExtraSlot, PeerRecord))
        requires
            old(self).wf(),
        ensures
            final(self).wf(),
            final(self).recs() == old(self).recs().remove(peer),
            final(self).local == old(self).local,
            final(self).alpn == old(self).alpn,
            r.1.wf(),
            r.0 == extra_view(old(self).recs(), peer, alpn@),
            forall|now: u64| #[trigger]
                slot_of(r.1, now) == slot_view(old(self).recs(), peer, now),
            r.1.slot is Some == has_slot(old(self).recs(), peer),
            forall|a: Seq<u8>| #[trigger]
                extra_at(r.1.extra@, a) == extra_view(old(self).recs(), peer, a),
    {
        let rec = self.take(peer);
        let s = match find_extra(rec.extra.as_slice(), alpn) {
            Some(i) => rec.extra[i].1,
            None => ExtraSlot::new(),
        };
        (s, rec)
    }

    fn put_back_extra(
        &mut self,
        peer: EndpointId,
        alpn: &[u8],
        s: ExtraSlot,
        mut rec: PeerRecord,
        Ghost(before): Ghost<Map<EndpointId, PeerRecord>>,
    )
        requires
            old(self).wf(),
            rec.wf(),
            old(self).recs() == before.remove(peer),
            forall|now: u64| #[trigger] slot_of(rec, now) == slot_view(before, peer, now),
            rec.slot is Some == has_slot(before, peer),
            forall|a: Seq<u8>| #[trigger] extra_at(rec.extra@, a) == extra_view(before, peer, a),
        ensures
            final(self).wf(),
            final(self).local == old(self).local,
            final(self).alpn == old(self).alpn,
            extra_set(before, final(self).recs(), peer, alpn@, s),
    {
        let ghost rec0 = rec;
        put_extra(&mut rec.extra, alpn, s);
        let ghost r = rec;
        self.put(peer, rec);
        proof {
            assert(before.remove(peer).insert(peer, r) =~= before.insert(peer, r));
            assert forall|now: u64| #[trigger] slot_of(r, now) == slot_view(
                before,
                peer,
                now,
            ) by {
                assert(slot_of(rec0, now) == slot_view(before, peer, now));
            }
            assert forall|a: Seq<u8>| #[trigger] extra_at(r.extra@, a) == (if a == alpn@ {
                s
            } else {
                extra_view(before, peer, a)
            }) by {
                assert(extra_at(rec0.extra@, a) == extra_view(before, peer, a));
            }
        }
    }

    /// A connection on a secondary protocol is asked for.
    pub fn get_extra(
        &mut self,
        sh: &mut Shared,
        peer: EndpointId,
        alpn: &[u8],
        gate: Gate,
        live: bool,
        now: u64,
    ) -> (r: GetStep)
        requires
            old(self).wf(),
        ensures
            final(self).wf(),
            final(self).alpn@ == old(self).alpn@,
            final(self).local == old(self).local,
            ({
                let step = extra_get_step(
                    extra_view(old(self).recs(), peer, alpn@),
                    old(sh).metrics,
                    gate,
                    live,
                    now,
                );
                &&& extra_set(old(self).recs(), final(self).recs(), peer, alpn@, step.0)
                &&& *final(sh) == (Shared { metrics: step.1, ..*old(sh) })
                &&& r == step.2
            }),
    {
        let ghost before = self.recs();
        let (mut s, rec) = self.take_extra(peer, alpn);
        let r = s.begin_get(&mut sh.metrics, gate, live, now);
        self.put_back_extra(peer, alpn, s, rec, Ghost(before));
        r
    }

    /// A connection on any protocol is asked for.
    pub fn get_alpn(
        &mut self,
        sh: &mut Shared,
        peer: EndpointId,
        alpn: &[u8],
        gate: Gate,
        live: bool,
        now: u64,
    ) -> (r: GetStep)
        requires
            old(self).wf(),
        ensures
            final(self).wf(),
            final(self).alpn@ == old(self).alpn@,
            final(self).local == old(self).local,
            alpn@ == old(self).alpn@ ==> {
                let step = get_step(
                    slot_view(old(self).recs(), peer, now),
                    old(sh).metrics,
                    gate,
                    live,
                    now,
                );
                &&& slot_set(old(self).recs(), final(self).recs(), peer, step.0)
                &&& *final(sh) == (Shared { metrics: step.1, ..*old(sh) })
                &&& r == step.2
            },
            alpn@ != old(self).alpn@ ==> {
                let step = extra_get_step(
                    extra_view(old(self).recs(), peer, alpn@),
                    old(sh).metrics,
                    gate,
                    live,
                    now,
                );
                &&& extra_set(old(self).recs(), final(self).recs(), peer, alpn@, step.0)
                &&& *final(sh) == (Shared { metrics: step.1, ..*old(sh) })
                &&& r == step.2
            },
    {
        if self.is_default(alpn) {
            self.get(sh, peer, gate, live, now)
        } else {
            self.get_extra(sh, peer, alpn, gate, live, now)
        }
    }

    /// The dial that a caller waited for has ended.
    pub fn after_wait(&mut self, peer: EndpointId, live: bool, outcome: WaitOutcome, now: u64) -> (r: WaitStep)
        requires
            old(self).wf(),
        ensures
            final(self).wf(),
            final(self).alpn@ == old(self).alpn@,
            final(self).local == old(self).local,
            ({
                let step = wait_step(slot_view(old(self).recs(), peer, now), live, outcome);
                slot_set(old(self).recs(), final(self).recs(), peer, step.0) && r == step.1
            }),
    {
        let ghost before = self.recs();
        let (mut slot, extra) = self.take_slot(peer, now);
        let r = slot.after_wait(live, outcome);
        self.put_slot(peer, slot, extra, Ghost(before));
        r
    }

    /// The dial that a caller waited for on a secondary protocol has ended.
    pub fn after_extra_wait(
        &mut self,
        peer: EndpointId,
        alpn: &[u8],
        live: bool,
        outcome: WaitOutcome,
    ) -> (r: WaitStep)
        requires
            old(self).wf(),
        ensures
            final(self).wf(),
            final(self).alpn@ == old(self).alpn@,
            final(self).local == old(self).local,
            ({
                let step = extra_wait_step(
                    extra_view(old(self).recs(), peer, alpn@),
                    live,
                    outcome,
                );
                extra_set(old(self).recs(), final(self).recs(), peer, alpn@, step.0) && r == step.1
            }),
    {
        let ghost before = self.recs();
        let (mut s, rec) = self.take_extra(peer, alpn);
        let r = s.after_wait(live, outcome);
        self.put_back_extra(peer, alpn, s, rec, Ghost(before));
        r
    }

    /// A dial on the default protocol opened the connection `new`. Hands out the packets
    /// that waited for it.
    pub fn dialed(
        &mut self,
        sh: &mut Shared,
        peer: EndpointId,
        new: u64,
        gate: Gate,
        live: bool,
        now: u64,
    ) -> (r: (DialStep, VecDeque<Vec<u8>>))
        requires
            old(self).wf(),
        ensures
            final(self).wf(),
            final(self).alpn@ == old(self).alpn@,
            final(self).local == old(self).local,
            ({
                let step = dialed_step(
                    slot_view(old(self).recs(), peer, now),
                    old(sh).metrics,
                    new,
                    gate,
                    live,
                    initiates(old(self).local, peer),
                    now,
                );
                &&& slot_set(old(self).recs(), final(self).recs(), peer, step.0)
                &&& *final(sh) == (Shared { metrics: step.1, ..*old(sh) })
                &&& r.0 == step.2
                &&& contents(r.1@) == step.3
            }),
    {
        let ghost before = self.recs();
        let (mut slot, extra) = self.take_slot(peer, now);
        let r = slot.dialed(&mut sh.metrics, new, gate, live, self.local, peer, now);
        self.put_slot(peer, slot, extra, Ghost(before));
        r
    }

    /// A dial on a secondary protocol opened the connection `new`.
    pub fn extra_dialed(&mut self, peer: EndpointId, alpn: &[u8], new: u64, gate: Gate) -> (r: DialStep)
        requires
            old(self).wf(),
        ensures
            final(self).wf(),
            final(self).alpn@ == old(self).alpn@,
            final(self).local == old(self).local,
            ({
                let step = extra_dialed_step(extra_view(old(self).recs(), peer, alpn@), new, gate);
                extra_set(old(self).recs(), final(self).recs(), peer, alpn@, step.0) && r == step.1
            }),
    {
        let ghost before = self.recs();
        let (mut s, rec) = self.take_extra(peer, alpn);
        let r = s.dialed(new, gate);
        self.put_back_extra(peer, alpn, s, rec, Ghost(before));
        r
    }

    /// A dial on the default protocol failed.
    pub fn dial_failed_with(
        &mut self,
        sh: &mut Shared,
        peer: EndpointId,
        failure: DialFailure,
        generation: u64,
        now: u64,
        random: u64,
    )
        requires
            old(self).wf(),
        ensures
            final(self).wf(),
            final(self).alpn@ == old(self).alpn@,
            final(self).local == old(self).local,
            dial_failure(
                (old(self).recs(), *old(sh)),
                (final(self).recs(), *final(sh)),
                peer,
                failure,
                generation,
                now,
                random,
            ),
    {
        let ghost before = self.recs();
        let (mut slot, extra) = self.take_slot(peer, now);
        slot.dial_failed(&mut sh.metrics, failure, generation, now, random);
        self.put_slot(peer, slot, extra, Ghost(before));
    }

    /// A dial failed; the backoff is drawn at random.
    pub fn dial_failed(
        &mut self,
        sh: &mut Shared,
        peer: EndpointId,
        failure: DialFailure,
        generation: u64,
        now: u64,
    )
        requires
            old(self).wf(),
        ensures
            final(self).wf(),
            final(self).alpn@ == old(self).alpn@,
            final(self).local == old(self).local,
            exists|random: u64| #[trigger]
                dial_failure(
                    (old(self).recs(), *old(sh)),
                    (final(self).recs(), *final(sh)),
                    peer,
                    failure,
                    generation,
                    now,
                    random,
                ),
    {
        let random: u64 = random_u64();
        self.dial_failed_with(sh, peer, failure, generation, now, random);
    }

    /// A dial on a secondary protocol failed.
    pub fn extra_dial_failed_with(
        &mut self,
        sh: &mut Shared,
        peer: EndpointId,
        alpn: &[u8],
        failure: DialFailure,
        generation: u64,
        now: u64,
        random: u64,
    )
        requires
            old(self).wf(),
        ensures
            final(self).wf(),
            final(self).alpn@ == old(self).alpn@,
            final(self).local == old(self).local,
            extra_dial_failure(
                (old(self).recs(), *old(sh)),
                (final(self).recs(), *final(sh)),
                peer,
                alpn@,
                failure,
                generation,
                now,
                random,
            ),
    {
        let ghost before = self.recs();
        let (mut s, rec) = self.take_extra(peer, alpn);
        s.dial_failed(&mut sh.metrics, failure, generation, now, random);
        self.put_back_extra(peer, alpn, s, rec, Ghost(before));
    }

    /// A dial on a secondary protocol failed; the backoff is drawn at random.
    pub fn extra_dial_failed(
        &mut self,
        sh: &mut Shared,
        peer: EndpointId,
        alpn: &[u8],
        failure: DialFailure,
        generation: u64,
        now: u64,
    )
        requires
            old(self).wf(),
        ensures
            final(self).wf(),
            final(self).alpn@ == old(self).alpn@,
            final(self).local == old(self).local,
            exists|random: u64| #[trigger]
                extra_dial_failure(
                    (old(self).recs(), *old(sh)),
                    (final(self).recs(), *final(sh)),
                    peer,
                    alpn@,
                    failure,
                    generation,
                    now,
                    random,
                ),
    {
        let random: u64 = random_u64();
        self.extra_dial_failed_with(sh, peer, alpn, failure, generation, now, random);
    }

    /// Send a packet, buffering + dialing when the peer is idle.
    /// Blocked peers fail immediately without buffering. A packet that goes out at once is
    /// handed back.
    pub fn send_or_buffer(
        &mut self,
        sh: &mut Shared,
        peer: EndpointId,
        packet: Vec<u8>,
        gate: Gate,
        live: bool,
        now: u64,
    ) -> (r: (SendStep, Option<Vec<u8>>))
        requires
            old(self).wf(),
        ensures
            final(self).wf(),
            final(self).alpn@ == old(self).alpn@,
            final(self).local == old(self).local,
            ({
                let step = send_step(
                    slot_view(old(self).recs(), peer, now),
                    old(sh).metrics,
                    packet@,
                    gate,
                    live,
                    now,
                );
                &&& slot_set(old(self).recs(), final(self).recs(), peer, step.0)
                &&& *final(sh) == (Shared { metrics: step.1, ..*old(sh) })
                &&& r.0 == step.2
            }),
            r.1 is Some == r.0 is Send,
            r.1 matches Some(p) ==> p == packet,
    {
        let ghost before = self.recs();
        let (mut slot, extra) = self.take_slot(peer, now);
        let r = slot.begin_send(&mut sh.metrics, packet, gate, live, now);
        self.put_slot(peer, slot, extra, Ghost(before));
        r
    }

    /// Install an accepted connection. Tells whether it is kept, whether it is news, and
    /// which connection is to be closed for it.
    pub fn adopt(&mut self, peer: EndpointId, new: u64, live: bool, now: u64) -> (r: (
        bool,
        bool,
        Option<u64>,
    ))
        requires
            old(self).wf(),
        ensures
            final(self).wf(),
            final(self).alpn@ == old(self).alpn@,
            final(self).local == old(self).local,
            ({
                let step = adopt_step(
                    slot_view(old(self).recs(), peer, now),
                    new,
                    live,
                    initiates(old(self).local, peer),
                    now,
                );
                slot_set(old(self).recs(), final(self).recs(), peer, step.0) && r == step.1
            }),
    {
        let ghost before = self.recs();
        let (mut slot, extra) = self.take_slot(peer, now);
        let r = slot.adopt(new, live, self.local, peer, now);
        self.put_slot(peer, slot, extra, Ghost(before));
        r
    }

    /// Keep a peer's connection alive, or let it go idle.
    pub fn set_peer_keep_alive(
        &mut self,
        sh: &mut Shared,
        peer: EndpointId,
        enabled: bool,
        now: u64,
    )
        requires
            old(self).wf(),
            old(sh).wf(),
        ensures
            final(self).wf(),
            final(self).alpn@ == old(self).alpn@,
            final(self).local == old(self).local,
            final(sh).wf(),
            tallies_of(final(sh).tallies) == tallies_of(old(sh).tallies).insert(
                peer,
                (PeerTally { keep_alive: enabled, ..old(sh).of(peer) }),
            ),
            slot_set(
                old(self).recs(),
                final(self).recs(),
                peer,
                (SlotView { peer_keep_alive: enabled, ..slot_view(old(self).recs(), peer, now) }),
            ),
            (Shared { tallies: old(sh).tallies, ..*final(sh) }) == *old(sh),
    {
        sh.keep_peer_alive(peer, enabled);
        let ghost before = self.recs();
        let (mut slot, extra) = self.take_slot(peer, now);
        slot.peer_keep_alive = enabled;
        self.put_slot(peer, slot, extra, Ghost(before));
    }

    /// Explicitly revoke a peer: all its connections are handed out to be closed, and it is
    /// pinned blocked at the current generation until authorizing state changes.
    pub fn revoke_peer(&mut self, sh: &mut Shared, peer: EndpointId, generation: u64) -> (close: Vec<u64>)
        requires
            old(self).wf(),
        ensures
            final(self).wf(),
            final(self).alpn@ == old(self).alpn@,
            final(self).local == old(self).local,
            final(self).recs() == (if old(self).recs().dom().contains(peer) {
                old(self).recs().insert(peer, final(self).recs()[peer])
            } else {
                old(self).recs()
            }),
            old(self).recs().dom().contains(peer) ==> final(self).recs()[peer].extra@.len() == 0
                && close@ == conns_of(old(self).recs()[peer]),
            !old(self).recs().dom().contains(peer) ==> close@.len() == 0,
            has_slot(old(self).recs(), peer) ==> {
                let step = revoke_step(
                    old(self).recs()[peer].slot->Some_0@,
                    old(sh).metrics,
                    generation,
                );
                &&& has_slot(final(self).recs(), peer)
                &&& final(self).recs()[peer].slot->Some_0@ == step.0
                &&& *final(sh) == (Shared { metrics: step.1, ..*old(sh) })
            },
            !has_slot(old(self).recs(), peer) ==> *final(sh) == *old(sh) && !has_slot(
                final(self).recs(),
                peer,
            ),
    {
        let ghost before = self.recs();
        match records_take(&mut self.records, peer) {
            None => {
                assert(before.remove(peer) =~= before);
                Vec::new()
            },
            Some(rec) => {
                let close = conn_list(&rec);
                let slot = match rec.slot {
                    Some(mut s) => {
                        s.revoke(&mut sh.metrics, generation);
                        Some(s)
                    },
                    None => None,
                };
                let now = PeerRecord { slot, extra: Vec::new() };
                let ghost g = now;
                self.put(peer, now);
                assert(before.remove(peer).insert(peer, g) =~= before.insert(peer, g));
                close
            },
        }
    }

    /// Forgets a peer.
    pub fn drop_peer(&mut self, peer: EndpointId)
        requires
            old(self).wf(),
        ensures
            final(self).wf(),
            final(self).alpn@ == old(self).alpn@,
            final(self).local == old(self).local,
            final(self).recs() == old(self).recs().remove(peer),
    {
        records_take(&mut self.records, peer);
        assert forall|k: EndpointId| #[trigger] self.recs().dom().contains(k) implies self.recs()[k].wf() by {
            assert(old(self).recs().dom().contains(k));
        }
    }

    /// Traffic was seen on a peer's connection.
    pub fn touch_peer(&mut self, peer: EndpointId, live: bool, now: u64)
        requires
            old(self).wf(),
        ensures
            final(self).wf(),
            final(self).alpn@ == old(self).alpn@,
            final(self).local == old(self).local,
            has_slot(old(self).recs(), peer) ==> slot_set(
                old(self).recs(),
                final(self).recs(),
                peer,
                touch_step(old(self).recs()[peer].slot->Some_0@, live, now),
            ),
            !has_slot(old(self).recs(), peer) ==> final(self).recs() == old(self).recs(),
    {
        let ghost before = self.recs();
        match records_take(&mut self.records, peer) {
            None => {
                assert(before.remove(peer) =~= before);
            },
            Some(rec) => {
                match rec.slot {
                    Some(mut s) => {
                        s.touch(live, now);
                        self.put_slot(peer, s, rec.extra, Ghost(before));
                    },
                    None => {
                        let again = PeerRecord { slot: None, extra: rec.extra };
                        self.put(peer, again);
                        assert(before.remove(peer).insert(peer, again) =~= before);
                    },
                }
            },
        }
    }

    /// The connection that the pool holds for a peer on the default protocol.
    pub fn conn_of(&mut self, peer: EndpointId) -> (r: Option<u64>)
        requires
            old(self).wf(),
        ensures
            final(self).alpn@ == old(self).alpn@,
            final(self).local == old(self).local,
            final(self).recs() == old(self).recs(),
            final(self).wf(),
            r == (if has_slot(old(self).recs(), peer) {
                old(self).recs()[peer].slot->Some_0.conn
            } else {
                None
            }),
    {
        let ghost before = self.recs();
        match records_take(&mut self.records, peer) {
            None => {
                assert(before.remove(peer) =~= before);
                None
            },
            Some(rec) => {
                let r = match &rec.slot {
                    Some(s) => s.conn,
                    None => None,
                };
                self.put(peer, rec);
                assert(before.remove(peer).insert(peer, rec) =~= before);
                r
            },
        }
    }

    /// True only if the peer has a connection that is open.
    pub fn has_live(&mut self, peer: EndpointId, live: bool) -> (b: bool)
        requires
            old(self).wf(),
        ensures
            final(self).alpn@ == old(self).alpn@,
            final(self).local == old(self).local,
            final(self).recs() == old(self).recs(),
            final(self).wf(),
            b == (has_slot(old(self).recs(), peer) && live_conn(
                old(self).recs()[peer].slot->Some_0.conn,
                live,
            ) is Some),
    {
        let c = self.conn_of(peer);
        live && c.is_some()
    }

    /// How many peers have an open connection among `live`.
    pub fn count_live(&mut self, live: &[u64]) -> (n: u32)
        requires
            old(self).wf(),
        ensures
            final(self).alpn@ == old(self).alpn@,
            final(self).local == old(self).local,
            final(self).recs() == old(self).recs(),
            final(self).wf(),
            exists|keys: Seq<EndpointId>| #[trigger]
                lists(keys, old(self).recs()) && n == live_count(
                    old(self).recs(),
                    keys,
                    live@,
                ) % 0x1_0000_0000,
    {
        let keys = records_keys(&self.records);
        let mut n: u32 = 0;
        let mut i: usize = 0;
        while i < keys.len()
            invariant
                self.alpn@ == old(self).alpn@,
                self.local == old(self).local,
                self.wf(),
                self.recs() == old(self).recs(),
                lists(keys@, self.recs()),
                i <= keys@.len(),
                n == live_count(self.recs(), keys@.take(i as int), live@) % 0x1_0000_0000,
            decreases keys.len() - i,
        {
            proof {
                assert(keys@.take(i + 1).drop_last() =~= keys@.take(i as int));
                assert(keys@.contains(keys@[i as int]));
                assert(self.recs().dom().contains(keys@[i as int]));
            }
            if let Some(c) = self.conn_of(keys[i]) {
                if holds_id(live, c) {
                    n = n.wrapping_add(1);
                }
            }
            i += 1;
        }
        assert(keys@.take(i as int) =~= keys@);
        n
    }

    /// True if some peer has an open connection.
    pub fn has_any_live(&mut self, live: &[u64]) -> (b: bool)
        requires
            old(self).wf(),
        ensures
            final(self).alpn@ == old(self).alpn@,
            final(self).local == old(self).local,
            final(self).recs() == old(self).recs(),
            final(self).wf(),
            b == exists|k: EndpointId| #[trigger]
                old(self).recs().dom().contains(k) && is_live(old(self).recs()[k], live@),
    {
        let keys = records_keys(&self.records);
        let mut i: usize = 0;
        while i < keys.len()
            invariant
                self.alpn@ == old(self).alpn@,
                self.local == old(self).local,
                self.wf(),
                self.recs() == old(self).recs(),
                lists(keys@, self.recs()),
                i <= keys@.len(),
                forall|j: int|
                    0 <= j < i ==> !is_live(self.recs()[#[trigger] keys@[j]], live@),
            decreases keys.len() - i,
        {
            proof {
                assert(keys@.contains(keys@[i as int]));
                assert(self.recs().dom().contains(keys@[i as int]));
            }
            if let Some(c) = self.conn_of(keys[i]) {
                if holds_id(live, c) {
                    return true;
                }
            }
            i += 1;
        }
        proof {
            assert forall|k: EndpointId| #[trigger] self.recs().dom().contains(k) implies !is_live(
                self.recs()[k],
                live@,
            ) by {
                assert(keys@.contains(k));
                let j = choose|j: int| 0 <= j < keys@.len() && keys@[j] == k;
                assert(!is_live(self.recs()[keys@[j]], live@));
            }
        }
        false
    }

    /// Open connections, bytes out and bytes in, for heartbeats.
    pub fn heartbeat_counters(&mut self, sh: &Shared, live: &[u64]) -> (r: (u32, u64, u64))
        requires
            old(self).wf(),
        ensures
            final(self).alpn@ == old(self).alpn@,
            final(self).local == old(self).local,
            final(self).recs() == old(self).recs(),
            final(self).wf(),
            exists|keys: Seq<EndpointId>| #[trigger]
                lists(keys, old(self).recs()) && r.0 == live_count(
                    old(self).recs(),
                    keys,
                    live@,
                ) % 0x1_0000_0000,
            exists|keys: Seq<EndpointId>| #[trigger]
                lists(keys, super::records::tallies_of(sh.tallies)) && r.1
                    == super::shared::sum_out(super::records::tallies_of(sh.tallies), keys) && r.2
                    == super::shared::sum_in(super::records::tallies_of(sh.tallies), keys),
    {
        let n: u32 = self.count_live(live);
        let (out, inn) = sh.total_bytes();
        (n, out, inn)
    }

    /// A snapshot of a peer's connection state.
    pub fn peer_snapshot(&mut self, sh: &Shared, peer: EndpointId, live: bool, now: u64) -> (s: PeerConnSnapshot)
        requires
            old(self).wf(),
        ensures
            final(self).alpn@ == old(self).alpn@,
            final(self).local == old(self).local,
            final(self).recs() == old(self).recs(),
            final(self).wf(),
            s.path@ == "unknown"@,
            !has_slot(old(self).recs(), peer) ==> s.state@ == state_name(PeerConnState::Idle)
                && s.keep_alive == (sh.keep_alive || sh.of(peer).keep_alive)
                && s.last_activity_secs_ago == u64::MAX && !s.live,
            has_slot(old(self).recs(), peer) ==> {
                let t = old(self).recs()[peer].slot->Some_0@;
                &&& s.state@ == state_name(t.state)
                &&& s.keep_alive == (sh.keep_alive || sh.of(peer).keep_alive || t.peer_keep_alive)
                &&& s.last_activity_secs_ago == (if now >= t.last_activity {
                    (now - t.last_activity) / 1_000_000_000
                } else {
                    0
                })
                &&& s.live == live_conn(t.conn, live) is Some
            },
    {
        let keep_alive = sh.keeps_alive(peer);
        let ghost before = self.recs();
        match records_take(&mut self.records, peer) {
            None => {
                assert(before.remove(peer) =~= before);
                idle_snapshot(keep_alive)
            },
            Some(rec) => {
                let s = match &rec.slot {
                    Some(t) => PeerConnSnapshot {
                        state: t.state.as_str().to_owned(),
                        keep_alive: keep_alive || t.peer_keep_alive,
                        last_activity_secs_ago: now.saturating_sub(t.last_activity) / 1_000_000_000,
                        live: live && t.conn.is_some(),
                        path: "unknown".to_owned(),
                    },
                    None => idle_snapshot(keep_alive),
                };
                self.put(peer, rec);
                assert(before.remove(peer).insert(peer, rec) =~= before);
                s
            },
        }
    }
}

fn idle_snapshot(keep_alive: bool) -> (s: PeerConnSnapshot)
    ensures
        s.state@ == state_name(PeerConnState::Idle),
        s.keep_alive == keep_alive,
        s.last_activity_secs_ago == u64::MAX,
        !s.live,
        s.path@ == "unknown"@,
{
    PeerConnSnapshot {
        state: PeerConnState::Idle.as_str().to_owned(),
        keep_alive,
        last_activity_secs_ago: u64::MAX,
        live: false,
        path: "unknown".to_owned(),
    }
}

/// The connections of secondary protocols.
pub open spec fn extra_conns(v: Seq<(Vec<u8>, ExtraSlot)>) -> Seq<u64>
    decreases v.len(),
{
    if v.len() == 0 {
        Seq::empty()
    } else {
        match v.last().1.conn {
            Some(c) => extra_conns(v.drop_last()).push(c),
            None => extra_conns(v.drop_last()),
        }
    }
}

/// All the connections of a peer.
pub open spec fn conns_of(r: PeerRecord) -> Seq<u64> {
    (match r.slot {
        Some(s) => match s.conn {
            Some(c) => seq![c],
            None => Seq::empty(),
        },
        None => Seq::empty(),
    }) + extra_conns(r.extra@)
}

pub(crate) fn conn_list(r: &PeerRecord) -> (v: Vec<u64>)
    ensures
        v@ == conns_of(*r),
{
    let mut v: Vec<u64> = Vec::new();
    if let Some(s) = &r.slot {
        if let Some(c) = s.conn {
            v.push(c);
        }
    }
    let ghost head = v@;
    assert(head =~= (match r.slot {
        Some(s) => match s.conn {
            Some(c) => seq![c],
            None => Seq::<u64>::empty(),
        },
        None => Seq::<u64>::empty(),
    }));
    let mut i: usize = 0;
    assert(v@ =~= head + extra_conns(r.extra@.take(0)));
    while i < r.extra.len()
        invariant
            i <= r.extra@.len(),
            v@ == head + extra_conns(r.extra@.take(i as int)),
        decreases r.extra.len() - i,
    {
        proof {
            assert(r.extra@.take(i + 1).drop_last() =~= r.extra@.take(i as int));
        }
        if let Some(c) = r.extra[i].1.conn {
            v.push(c);
        }
        i += 1;
        assert(v@ =~= head + extra_conns(r.extra@.take(i as int)));
    }
    assert(r.extra@.take(i as int) =~= r.extra@);
    v
}

} // verus!
