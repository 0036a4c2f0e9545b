//! When a frame may be sent, what a connection changes, and who leaves.

use super::maps::{MemberKey, PeerIdentity, PeerMembershipState};
use super::registry::{
    conn_mirrored, deactivated, is_new_member, leaving, leaving_conns, membership_ensured,
    sole_network, staying, totals, transport_ensured, Leave, PeerRegistry,
};
use super::transport::{
    backoff_ceiling_of, backoff_us, measured, new_transport, quantum_for, send_check, touched,
    ConnFacts, FastSendError, Measured, PeerTransportState,
};
use crate::endpoint::EndpointId;
use crate::numerals::{law_decimal_numbers, law_other_texts_are_no_numbers, lemma_numeral, numeral};
use vstd::prelude::*;

verus! {

/// A frame is submitted exactly where there is an open connection, the frame is no longer
/// than its datagrams and no longer than the space that is free; else the first of these
/// that fails is reported.
pub proof fn law_frame_is_submitted(c: ConnFacts, len: usize)
    ensures
        send_check(None, len) == Err::<(), FastSendError>(FastSendError::NoConnection),
        send_check(Some(c), len) is Ok <==> !c.closed && len <= c.space && (c.max_datagram is None
            || len <= c.max_datagram->0),
        c.closed ==> send_check(Some(c), len) == Err::<(), FastSendError>(
            FastSendError::NoConnection,
        ),
        !c.closed && c.max_datagram is Some && len > c.max_datagram->0 ==> send_check(Some(c), len)
            == Err::<(), FastSendError>(FastSendError::TooLarge),
        !c.closed && (c.max_datagram is None || len <= c.max_datagram->0) && len > c.space
            ==> send_check(Some(c), len) == Err::<(), FastSendError>(FastSendError::TransportFull),
{
}

/// A full transport is given a quarter of its round trip, but no less than 100 microseconds
/// and no more than the ceiling.
pub proof fn law_pause_of_a_full_transport(rtt_ms: u64, max: u64)
    requires
        max >= 100,
    ensures
        ({
            let us = backoff_us(rtt_ms, max);
            let quarter = rtt_ms * 1000 / 4;
            &&& 100 <= us <= max
            &&& 100 <= quarter <= max ==> us == quarter
            &&& quarter < 100 ==> us == 100
            &&& quarter > max ==> us == max
        }),
{
}

/// A measurement sets the size of datagrams, and the round trip where there is one; turns
/// are then as long as a datagram, and 512 bytes at least.
pub proof fn law_measurement_is_taken_over(t: PeerTransportState, m: Measured)
    ensures
        measured(t, m).mps == m.mps,
        m.rtt_ms is Some ==> measured(t, m).rtt_ms == m.rtt_ms->0,
        m.rtt_ms is None ==> measured(t, m).rtt_ms == t.rtt_ms,
        measured(t, m).conn == t.conn,
        measured(t, m).next_frame_id == t.next_frame_id,
        measured(t, m).tx_bytes == t.tx_bytes,
        measured(t, m).rx_bytes == t.rx_bytes,
        quantum_for(m.mps) >= 512,
        m.mps >= 512 ==> quantum_for(m.mps) == m.mps,
        m.mps < 512 ==> quantum_for(m.mps) == 512,
{
}

/// Activity is noted once a second.
pub proof fn law_activity_is_noted(t: PeerTransportState, now_ms: u64)
    requires
        now_ms >= t.last_activity_ms,
    ensures
        now_ms - t.last_activity_ms >= 1000 ==> touched(t, now_ms).last_activity_ms == now_ms,
        now_ms - t.last_activity_ms < 1000 ==> touched(t, now_ms) == t,
{
}

/// A new connection of an endpoint becomes its transport's connection, with frame ids that
/// start where chance says; every membership of the endpoint is active again, with turns
/// that fit the measured path. Nothing of any other endpoint changes.
pub proof fn law_new_connection_reactivates(
    before: PeerRegistry,
    after: PeerRegistry,
    peer: EndpointId,
    conn: u64,
    m: Option<Measured>,
    now_ms: u64,
    frame_id: u32,
    k: MemberKey,
)
    requires
        conn_mirrored(before, after, peer, Some(conn), m, now_ms, frame_id),
    ensures
        after.links().dom() == before.links().dom().insert(peer),
        after.links()[peer].conn == Some(conn),
        after.links()[peer].next_frame_id == frame_id,
        after.links()[peer].sends_since_mps_check == 0,
        m is Some ==> after.links()[peer].mps == m->0.mps,
        after.members().dom() == before.members().dom(),
        before.members().dom().contains(k) && k.0 == peer ==> after.members()[k].active
            && after.members()[k].epoch == before.members()[k].epoch && after.members()[k].id
            == before.members()[k].id,
        before.members().dom().contains(k) && k.0 == peer && m is Some && m->0.mps >= 512
            ==> after.members()[k].quantum == m->0.mps,
        before.members().dom().contains(k) && k.0 != peer ==> after.members()[k]
            == before.members()[k],
        forall|p: EndpointId| p != peer && before.links().dom().contains(p) ==> #[trigger] after.links()[p]
            == before.links()[p],
{
    assert(after.members().dom() =~= before.members().dom());
    assert(after.links().dom() =~= before.links().dom().insert(peer));
}

/// A connection that is lost leaves the transport without one, and deactivates every
/// membership of the endpoint: each active one gets a new epoch, once.
pub proof fn law_lost_connection_deactivates(
    before: PeerRegistry,
    after: PeerRegistry,
    peer: EndpointId,
    m: Option<Measured>,
    now_ms: u64,
    frame_id: u32,
    k: MemberKey,
)
    requires
        conn_mirrored(before, after, peer, None, m, now_ms, frame_id),
        before.members().dom().contains(k),
        before.members()[k].epoch < u64::MAX,
    ensures
        after.links()[peer].conn is None,
        after.members().dom().contains(k),
        k.0 == peer ==> !after.members()[k].active && after.members()[k].epoch
            == before.members()[k].epoch + (if before.members()[k].active {
            1int
        } else {
            0
        }),
        k.0 != peer ==> after.members()[k] == before.members()[k],
{
}

/// Who leaves: the memberships of one peer; those that are not on a list; those of endpoints
/// that are not on a list; or all. The transport of an endpoint leaves with the last of its
/// memberships.
pub proof fn law_who_leaves(
    m: Map<MemberKey, PeerMembershipState>,
    peer: EndpointId,
    k: MemberKey,
    l: &[MemberKey],
    e: &[EndpointId],
)
    requires
        m.dom().contains(k),
    ensures
        staying(m, Leave::Peer(peer).members()).dom().contains(k) == (k.0 != peer),
        staying(m, Leave::OtherThan(l).members()).dom().contains(k) == l@.contains(k),
        staying(m, Leave::EndpointsOtherThan(e).members()).dom().contains(k) == e@.contains(k.0),
        !staying(m, Leave::All.members()).dom().contains(k),
        staying(m, Leave::Peer(peer).members()).dom().contains(k) ==> staying(
            m,
            Leave::Peer(peer).members(),
        )[k] == m[k],
        Leave::Peer(peer).links()(k.0) == (k.0 == peer),
        l@.contains(k) ==> !Leave::OtherThan(l).links()(k.0),
        Leave::EndpointsOtherThan(e).links()(k.0) == !e@.contains(k.0),
        Leave::All.links()(k.0),
{
    if l@.contains(k) {
        let i = choose|i: int| 0 <= i < l@.len() && l@[i] == k;
        assert(l@[i].0 == k.0);
    }
}

/// What is handed out of those that leave: each of them, deactivated, and nobody else.
pub proof fn law_leaving_members_are_handed_out(
    m: Map<MemberKey, PeerMembershipState>,
    keys: Seq<MemberKey>,
    goes: spec_fn(MemberKey) -> bool,
    k: MemberKey,
)
    requires
        keys.contains(k),
    ensures
        goes(k) ==> exists|i: int|
            0 <= i < leaving(m, keys, goes).len() && ({
                let d = #[trigger] leaving(m, keys, goes)[i];
                d.id == m[k].id && d.identity == m[k].identity && !d.active
            }),
        (forall|x: MemberKey| keys.contains(x) ==> !#[trigger] goes(x)) ==> leaving(
            m,
            keys,
            goes,
        ).len() == 0,
    decreases keys.len(),
{
    let r = keys.drop_last();
    let v = leaving(m, keys, goes);
    let w = leaving(m, r, goes);
    if keys.last() == k {
        if goes(k) {
            assert(v[v.len() - 1] == deactivated(m[k]));
        }
    } else {
        let j = choose|j: int| 0 <= j < keys.len() && keys[j] == k;
        assert(r[j] == k);
        law_leaving_members_are_handed_out(m, r, goes, k);
        if goes(k) {
            let i = choose|i: int|
                0 <= i < w.len() && ({
                    let d = #[trigger] w[i];
                    d.id == m[k].id && d.identity == m[k].identity && !d.active
                });
            assert(v[i] == w[i]);
        }
    }
    if forall|x: MemberKey| keys.contains(x) ==> !#[trigger] goes(x) {
        lemma_none_leaves(m, keys, goes);
    }
}

proof fn lemma_none_leaves(
    m: Map<MemberKey, PeerMembershipState>,
    keys: Seq<MemberKey>,
    goes: spec_fn(MemberKey) -> bool,
)
    requires
        forall|x: MemberKey| keys.contains(x) ==> !#[trigger] goes(x),
    ensures
        leaving(m, keys, goes).len() == 0,
    decreases keys.len(),
{
    if keys.len() > 0 {
        let r = keys.drop_last();
        assert(keys[keys.len() - 1] == keys.last());
        assert(keys.contains(keys.last()));
        assert forall|x: MemberKey| r.contains(x) implies !#[trigger] goes(x) by {
            let j = choose|j: int| 0 <= j < r.len() && r[j] == x;
            assert(keys[j] == x);
        }
        lemma_none_leaves(m, r, goes);
    }
}

/// The connections of transports that leave are handed out to be closed.
pub proof fn law_leaving_connections_are_closed(
    t: Map<EndpointId, PeerTransportState>,
    keys: Seq<EndpointId>,
    goes: spec_fn(EndpointId) -> bool,
    p: EndpointId,
)
    ensures
        leaving_conns(t, keys.push(p), goes) == (if goes(p) && t[p].conn is Some {
            leaving_conns(t, keys, goes).push(t[p].conn->0)
        } else {
            leaving_conns(t, keys, goes)
        }),
        leaving_conns(t, Seq::empty(), goes).len() == 0,
{
    assert(keys.push(p).drop_last() =~= keys);
}

/// The totals over endpoints: connections that are open, bytes out, bytes in.
pub proof fn law_totals_of_endpoints(
    m: Map<EndpointId, PeerTransportState>,
    keys: Seq<EndpointId>,
    p: EndpointId,
    live: Seq<u64>,
)
    requires
        totals(m, keys, live).0 < u32::MAX,
        totals(m, keys, live).1 + m[p].tx_bytes <= u64::MAX,
        totals(m, keys, live).2 + m[p].rx_bytes <= u64::MAX,
    ensures
        totals(m, keys.push(p), live).0 == totals(m, keys, live).0 + (if m[p].conn is Some
            && live.contains(m[p].conn->0) {
            1int
        } else {
            0
        }),
        totals(m, keys.push(p), live).1 == totals(m, keys, live).1 + m[p].tx_bytes,
        totals(m, keys.push(p), live).2 == totals(m, keys, live).2 + m[p].rx_bytes,
        totals(m, Seq::empty(), live) == (0u32, 0u64, 0u64),
{
    assert(keys.push(p).drop_last() =~= keys);
}

/// A transport starts without a connection, with datagrams of 1280 bytes and a round trip of
/// 90 ms; a membership starts active, at epoch zero, with turns of 1536 bytes.
pub proof fn law_new_peers(
    p: EndpointId,
    now_ms: u64,
    frame_id: u32,
    m: PeerMembershipState,
    id: u64,
    who: super::maps::PeerIdentity,
)
    requires
        is_new_member(m, id, who),
    ensures
        new_transport(p, now_ms, frame_id).conn is None,
        new_transport(p, now_ms, frame_id).mps == 1280,
        new_transport(p, now_ms, frame_id).rtt_ms == 90,
        new_transport(p, now_ms, frame_id).next_frame_id == frame_id,
        new_transport(p, now_ms, frame_id).last_activity_ms == now_ms,
        m.active,
        m.epoch == 0,
        m.quantum == 1536,
        m.policy is None,
        !m.pump_running,
        m.identity == who,
        m.id == id,
{
}

/// The ceiling of the pause is the number that is set, from 100 on; else it is 2000
/// microseconds.
pub proof fn law_ceiling_that_is_set(setting: Option<&str>, n: nat)
    ensures
        setting is None ==> backoff_ceiling_of(setting) == 2000,
        setting is Some && setting->0@ == numeral(n, 10, false) ==> backoff_ceiling_of(setting) == (
        if 100 <= n <= u64::MAX {
            n
        } else {
            2000
        }),
        setting is Some && setting->0@.len() == 0 ==> backoff_ceiling_of(setting) == 2000,
{
    law_decimal_numbers(n);
    lemma_numeral(n, 10, false);
    if setting is Some && setting->0@.len() == 0 {
        law_other_texts_are_no_numbers(setting->0@, 0);
    }
}

/// The memberships of an endpoint share its transport: the first one makes it, and a later one
/// leaves it as it is. A membership that is there keeps its id, and a new one gets the next.
pub proof fn law_memberships_share_a_transport(
    before: PeerRegistry,
    after: PeerRegistry,
    identity: PeerIdentity,
    now_ms: u64,
    frame_id: u32,
    id: u64,
    other: (EndpointId, u128),
)
    requires
        membership_ensured(before, after, identity, now_ms, frame_id, id),
    ensures
        ({
            let key = (identity.endpoint, identity.network_id);
            let known = before.members().dom().contains(key);
            &&& after.members().dom().contains(key)
            &&& after.members()[key].identity == identity
            &&& after.members()[key].id == id
            &&& known ==> id == before.members()[key].id && after.next_id == before.next_id
            &&& known ==> after.members()[key].active == before.members()[key].active
            &&& !known ==> id == before.next_id && after.next_id == id + 1
            &&& !known ==> after.members()[key].active && after.members()[key].quantum == 1536
                && after.members()[key].policy is None
            &&& other != key ==> after.members().dom().contains(other)
                == before.members().dom().contains(other)
            &&& other != key && before.members().dom().contains(other) ==> after.members()[other]
                == before.members()[other]
            &&& before.links().dom().contains(other.0) ==> after.links().dom().contains(other.0)
                && after.links()[other.0] == before.links()[other.0]
            &&& !known && !before.links().dom().contains(identity.endpoint) ==> ({
                let t = after.links()[identity.endpoint];
                t.conn is None && t.tx_bytes == 0 && t.rx_bytes == 0 && t.mps == 1280
                    && t.last_activity_ms == now_ms && t.next_frame_id == frame_id
            })
        }),
{
}

/// The endpoint has a sole network where it is a member of that one and of no other.
pub proof fn law_sole_network(
    m: Map<MemberKey, PeerMembershipState>,
    peer: EndpointId,
    a: u128,
    b: u128,
)
    requires
        m.dom().contains((peer, a)),
    ensures
        m.dom().contains((peer, b)) && a != b ==> !sole_network(m, peer, a),
        sole_network(m, peer, b) ==> a == b,
        (forall|n: u128| #[trigger] m.dom().contains((peer, n)) ==> n == a) ==> sole_network(
            m,
            peer,
            a,
        ),
{
}

/// The transport of an endpoint is made where there is none, and else left as it is; nothing
/// else changes.
pub proof fn law_transport_is_made_once(
    before: PeerRegistry,
    after: PeerRegistry,
    peer: EndpointId,
    now_ms: u64,
    frame_id: u32,
    t: PeerTransportState,
    other: EndpointId,
)
    requires
        transport_ensured(before, after, peer, now_ms, frame_id, t),
    ensures
        after.links().dom().contains(peer),
        after.links()[peer] == t,
        before.links().dom().contains(peer) ==> t == before.links()[peer],
        !before.links().dom().contains(peer) ==> t.conn is None && t.endpoint == peer
            && t.next_frame_id == frame_id && t.last_activity_ms == now_ms,
        other != peer && before.links().dom().contains(other) ==> after.links().dom().contains(
            other,
        ) && after.links()[other] == before.links()[other],
        other != peer && !before.links().dom().contains(other) ==> !after.links().dom().contains(
            other,
        ),
        after.members() == before.members(),
        after.next_id == before.next_id,
        after.reassembly_budget == before.reassembly_budget,
{
}

} // verus!
