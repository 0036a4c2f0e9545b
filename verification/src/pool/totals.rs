//! The connections and the traffic of all peers together.

use super::conn_pool::{conns_of, extra_conns, extra_view, live_count, slot_view};
use super::model::{ExtraSlot, PeerConnState};
use super::records::{extra_at, PeerRecord, PeerTally};
use super::shared::{sum_in, sum_out, Shared};
use super::sweep::{all_conns, idle_conns, refused_conns, refused_packets};
use crate::endpoint::EndpointId;
use vstd::prelude::*;

verus! {

proof fn lemma_extra(v: Seq<(Vec<u8>, ExtraSlot)>, c: u64)
    ensures
        extra_conns(v).contains(c) <==> exists|i: int|
            0 <= i < v.len() && (#[trigger] v[i]).1.conn == Some(c),
    decreases v.len(),
{
    if v.len() > 0 {
        let d = v.drop_last();
        let a = extra_conns(d);
        let b = extra_conns(v);
        lemma_extra(d, c);
        if b.contains(c) {
            let k = choose|k: int| 0 <= k < b.len() && b[k] == c;
            if k < a.len() {
                assert(a[k] == c);
                let i = choose|i: int| 0 <= i < d.len() && (#[trigger] d[i]).1.conn == Some(c);
                assert(v[i].1.conn == Some(c));
            } else {
                assert(v[v.len() - 1].1.conn == Some(c));
            }
        }
        if exists|i: int| 0 <= i < v.len() && (#[trigger] v[i]).1.conn == Some(c) {
            let i = choose|i: int| 0 <= i < v.len() && (#[trigger] v[i]).1.conn == Some(c);
            if i < d.len() {
                assert(d[i].1.conn == Some(c));
                let k = choose|k: int| 0 <= k < a.len() && a[k] == c;
                assert(b[k] == c);
            } else {
                assert(b[a.len() as int] == c);
            }
        }
    }
}

/// The connections of a peer are the primary one and those of the secondary protocols.
pub proof fn law_connections_of_a_peer(r: PeerRecord, c: u64)
    ensures
        conns_of(r).contains(c) <==> (r.slot is Some && r.slot->0.conn == Some(c)) || exists|i: int|
            0 <= i < r.extra@.len() && (#[trigger] r.extra@[i]).1.conn == Some(c),
{
    let e = extra_conns(r.extra@);
    let all = conns_of(r);
    let n = all.len() - e.len();
    lemma_extra(r.extra@, c);
    if all.contains(c) {
        let k = choose|k: int| 0 <= k < all.len() && all[k] == c;
        if k >= n {
            assert(e[k - n] == c);
        }
    }
    if e.contains(c) {
        let k = choose|k: int| 0 <= k < e.len() && e[k] == c;
        assert(all[n + k] == c);
    }
    if r.slot is Some && r.slot->0.conn == Some(c) {
        assert(all[0] == c);
    }
}

/// Closing the pool closes the connections of every peer.
pub proof fn law_all_connections(recs: Map<EndpointId, PeerRecord>, keys: Seq<EndpointId>, c: u64)
    ensures
        all_conns(recs, keys).contains(c) <==> exists|i: int|
            0 <= i < keys.len() && conns_of(recs[#[trigger] keys[i]]).contains(c),
    decreases keys.len(),
{
    if keys.len() > 0 {
        let d = keys.drop_last();
        let a = all_conns(recs, d);
        let m = conns_of(recs[keys.last()]);
        let b = all_conns(recs, keys);
        law_all_connections(recs, d, c);
        lemma_either(a, m, c);
        if a.contains(c) {
            let i = choose|i: int| 0 <= i < d.len() && conns_of(recs[#[trigger] d[i]]).contains(c);
            assert(keys[i] == d[i]);
        }
        if m.contains(c) {
            assert(conns_of(recs[keys[keys.len() - 1]]).contains(c));
        }
        if exists|i: int| 0 <= i < keys.len() && conns_of(recs[#[trigger] keys[i]]).contains(c) {
            let i = choose|i: int|
                0 <= i < keys.len() && conns_of(recs[#[trigger] keys[i]]).contains(c);
            if i < d.len() {
                assert(conns_of(recs[d[i]]).contains(c));
            }
        }
    }
}

proof fn lemma_either(a: Seq<u64>, b: Seq<u64>, c: u64)
    ensures
        (a + b).contains(c) <==> a.contains(c) || b.contains(c),
{
    let s = a + b;
    if s.contains(c) {
        let k = choose|k: int| 0 <= k < s.len() && s[k] == c;
        if k < a.len() {
            assert(a[k] == c);
        } else {
            assert(b[k - a.len()] == c);
        }
    }
    if a.contains(c) {
        let k = choose|k: int| 0 <= k < a.len() && a[k] == c;
        assert(s[k] == c);
    }
    if b.contains(c) {
        let k = choose|k: int| 0 <= k < b.len() && b[k] == c;
        assert(s[a.len() + k] == c);
    }
}

/// A change of membership closes the connections of the peers that it leaves out, and of
/// nobody else.
pub proof fn law_connections_of_refused_peers(
    recs: Map<EndpointId, PeerRecord>,
    keys: Seq<EndpointId>,
    allowed: Seq<EndpointId>,
    c: u64,
)
    ensures
        refused_conns(recs, keys, allowed).contains(c) <==> exists|i: int|
            0 <= i < keys.len() && !allowed.contains(#[trigger] keys[i]) && conns_of(
                recs[keys[i]],
            ).contains(c),
    decreases keys.len(),
{
    if keys.len() > 0 {
        let d = keys.drop_last();
        let a = refused_conns(recs, d, allowed);
        let m = conns_of(recs[keys.last()]);
        law_connections_of_refused_peers(recs, d, allowed, c);
        lemma_either(a, m, c);
        if a.contains(c) {
            let i = choose|i: int|
                0 <= i < d.len() && !allowed.contains(#[trigger] d[i]) && conns_of(
                    recs[d[i]],
                ).contains(c);
            assert(keys[i] == d[i]);
        }
        if m.contains(c) {
            assert(conns_of(recs[keys[keys.len() - 1]]).contains(c));
        }
        if exists|i: int|
            0 <= i < keys.len() && !allowed.contains(#[trigger] keys[i]) && conns_of(
                recs[keys[i]],
            ).contains(c) {
            let i = choose|i: int|
                0 <= i < keys.len() && !allowed.contains(#[trigger] keys[i]) && conns_of(
                    recs[keys[i]],
                ).contains(c);
            if i < d.len() {
                assert(!allowed.contains(d[i]));
            }
        }
    }
}

/// The packets that wait for refused peers are dropped: as many as wait for each.
pub proof fn law_packets_for_refused_peers(
    recs: Map<EndpointId, PeerRecord>,
    keys: Seq<EndpointId>,
    allowed: Seq<EndpointId>,
    k: EndpointId,
)
    ensures
        refused_packets(recs, keys.push(k), allowed) == refused_packets(recs, keys, allowed) + (
        if !allowed.contains(k) && recs[k].slot is Some {
            recs[k].slot->0@.buffer.len()
        } else {
            0
        }),
        refused_packets(recs, Seq::empty(), allowed) == 0,
{
    assert(keys.push(k).drop_last() =~= keys);
}

/// The sweeper closes the connections of peers that are connected, that neither the pool's
/// settings nor the peer itself keep alive, and that were idle for the timeout at least.
pub proof fn law_connections_of_idle_peers(
    sh: Shared,
    recs: Map<EndpointId, PeerRecord>,
    keys: Seq<EndpointId>,
    now: u64,
    c: u64,
)
    ensures
        idle_conns(sh, recs, keys, now).contains(c) <==> exists|i: int|
            0 <= i < keys.len() && idles(sh, recs, #[trigger] keys[i], now, c),
    decreases keys.len(),
{
    if keys.len() > 0 {
        let d = keys.drop_last();
        let a = idle_conns(sh, recs, d, now);
        let b = idle_conns(sh, recs, keys, now);
        law_connections_of_idle_peers(sh, recs, d, now, c);
        if b.contains(c) {
            let k = choose|k: int| 0 <= k < b.len() && b[k] == c;
            if k < a.len() {
                assert(a[k] == c);
                let i = choose|i: int| 0 <= i < d.len() && idles(sh, recs, #[trigger] d[i], now, c);
                assert(idles(sh, recs, keys[i], now, c));
            } else {
                assert(idles(sh, recs, keys[keys.len() - 1], now, c));
            }
        }
        if exists|i: int| 0 <= i < keys.len() && idles(sh, recs, #[trigger] keys[i], now, c) {
            let i = choose|i: int|
                0 <= i < keys.len() && idles(sh, recs, #[trigger] keys[i], now, c);
            if i < d.len() {
                assert(idles(sh, recs, d[i], now, c));
                let k = choose|k: int| 0 <= k < a.len() && a[k] == c;
                assert(b[k] == c);
            } else {
                assert(b[a.len() as int] == c);
            }
        }
    }
}

/// The connection is that of a peer that idles.
pub open spec fn idles(
    sh: Shared,
    recs: Map<EndpointId, PeerRecord>,
    peer: EndpointId,
    now: u64,
    c: u64,
) -> bool {
    let r = recs[peer];
    &&& r.slot is Some
    &&& r.slot->0.conn == Some(c)
    &&& r.slot->0.state == PeerConnState::Connected
    &&& !r.slot->0.peer_keep_alive
    &&& !sh.of(peer).keep_alive
    &&& sh.idle_timeout == 0 || now >= r.slot->0.last_activity + sh.idle_timeout
}

/// The traffic of peers is summed up; past 64 bits it starts again at zero.
pub proof fn law_sum_of_traffic(
    m: Map<EndpointId, PeerTally>,
    keys: Seq<EndpointId>,
    k: EndpointId,
)
    ensures
        sum_in(m, keys.push(k)) == (sum_in(m, keys) + m[k].bytes_in) % 0x1_0000_0000_0000_0000,
        sum_out(m, keys.push(k)) == (sum_out(m, keys) + m[k].bytes_out) % 0x1_0000_0000_0000_0000,
        sum_in(m, Seq::empty()) == 0,
        sum_out(m, Seq::empty()) == 0,
{
    assert(keys.push(k).drop_last() =~= keys);
}

/// The peers whose connection is open are counted one by one.
pub proof fn law_count_of_connected_peers(
    recs: Map<EndpointId, PeerRecord>,
    keys: Seq<EndpointId>,
    k: EndpointId,
    live: Seq<u64>,
)
    ensures
        live_count(recs, keys.push(k), live) == live_count(recs, keys, live) + (if recs[k].slot is
            Some && recs[k].slot->0.conn is Some && live.contains(recs[k].slot->0.conn->0) {
            1int
        } else {
            0
        }),
        live_count(recs, Seq::empty(), live) == 0,
{
    assert(keys.push(k).drop_last() =~= keys);
}

/// A peer that is not known, or known on other protocols alone, starts afresh: no connection,
/// nothing that waits, nothing to wait for.
pub proof fn law_slot_of_a_peer(recs: Map<EndpointId, PeerRecord>, peer: EndpointId, now: u64)
    ensures
        recs.dom().contains(peer) && recs[peer].slot is Some ==> slot_view(recs, peer, now)
            == recs[peer].slot->0@,
        !recs.dom().contains(peer) || recs[peer].slot is None ==> ({
            let s = slot_view(recs, peer, now);
            &&& s.conn is None && !s.dialing && s.buffer.len() == 0
            &&& s.state == PeerConnState::Idle && s.last_activity == now
            &&& s.blocked_generation is None && s.backoff_until is None && s.backoff_step == 0
        }),
{
}

/// The slot of a protocol is found by its name, the first one of that name.
pub proof fn law_slot_of_a_protocol(
    recs: Map<EndpointId, PeerRecord>,
    peer: EndpointId,
    alpn: Seq<u8>,
    i: int,
)
    requires
        recs.dom().contains(peer),
        0 <= i < recs[peer].extra@.len(),
        recs[peer].extra@[i].0@ == alpn,
        forall|j: int| 0 <= j < i ==> (#[trigger] recs[peer].extra@[j]).0@ != alpn,
    ensures
        extra_view(recs, peer, alpn) == recs[peer].extra@[i].1,
{
    lemma_slot_at(recs[peer].extra@, alpn, i);
}

proof fn lemma_slot_at(v: Seq<(Vec<u8>, ExtraSlot)>, alpn: Seq<u8>, i: int)
    requires
        0 <= i < v.len(),
        v[i].0@ == alpn,
        forall|j: int| 0 <= j < i ==> (#[trigger] v[j]).0@ != alpn,
    ensures
        extra_at(v, alpn) == v[i].1,
    decreases v.len(),
{
    if i > 0 {
        let t = v.drop_first();
        assert(v[0].0@ != alpn);
        assert forall|j: int| 0 <= j < i - 1 implies (#[trigger] t[j]).0@ != alpn by {
            assert(t[j] == v[j + 1]);
        }
        lemma_slot_at(t, alpn, i - 1);
    }
}

} // verus!
