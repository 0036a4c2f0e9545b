//! What holds of the pool as a whole.

use super::model::{
    backoff_bound, backoff_ms, dialed_step, extra_get_step, failed_step, get_step, initiates,
    live_conn, pinned, pow2, prefers_incoming, reconcile_step, send_step, wait_step, DialFailure,
    ExtraSlot, Gate, GetStep, PoolMetrics, SlotView, WaitOutcome, BACKOFF_BASE_MS, BACKOFF_CAP_MS,
};
use crate::endpoint::EndpointId;
use vstd::prelude::*;

verus! {

/// A peer that the membership gate refuses, or that was refused at the current generation, is
/// never dialed: not by a request for a connection, and not by a packet; and no packet is
/// queued for it. A connection that is open is handed out where the membership gate admits the
/// peer.
pub proof fn law_blocked_never_dialed(
    s: SlotView,
    m: PoolMetrics,
    gate: Gate,
    live: bool,
    packet: Seq<u8>,
    now: u64,
)
    requires
        !gate.allows || pinned(s.blocked_generation, gate),
        s.blocked_generation is Some ==> s.buffer.len() == 0,
    ensures
        ({
            let (t, n, r) = get_step(s, m, gate, live, now);
            &&& gate.allows && live_conn(s.conn, live) is Some ==> r == (GetStep::Ready {
                conn: live_conn(s.conn, live)->Some_0,
            })
            &&& !(gate.allows && live_conn(s.conn, live) is Some) ==> r is Denied
                && t.state is Blocked
            &&& gate.allows ==> pinned(t.blocked_generation, gate)
            &&& t.buffer.len() == 0
            &&& n.reconnect_attempts == m.reconnect_attempts
        }),
        live_conn(s.conn, live) is None ==> send_step(s, m, packet, gate, live, now).2 is Denied,
        live_conn(s.conn, live) is None ==> send_step(s, m, packet, gate, live, now).0.buffer.len()
            == 0,
        live_conn(s.conn, live) is None ==> send_step(
            s,
            m,
            packet,
            gate,
            live,
            now,
        ).0.state is Blocked,
{
}

/// The same for secondary protocols.
pub proof fn law_blocked_never_dialed_extra(
    s: ExtraSlot,
    m: PoolMetrics,
    gate: Gate,
    live: bool,
    now: u64,
)
    requires
        !gate.allows || pinned(s.blocked_generation, gate),
    ensures
        ({
            let (t, _, r) = extra_get_step(s, m, gate, live, now);
            &&& gate.allows && live_conn(s.conn, live) is Some ==> r == (GetStep::Ready {
                conn: live_conn(s.conn, live)->Some_0,
            })
            &&& !(gate.allows && live_conn(s.conn, live) is Some) ==> r is Denied
            &&& pinned(t.blocked_generation, gate)
        }),
{
}

/// Once a request was refused, every further request is refused, at the cost of a count,
/// for as long as the generation does not move and no connection comes in from a peer that
/// the membership gate admits.
pub proof fn law_refusal_is_pinned(
    s: SlotView,
    m: PoolMetrics,
    gate: Gate,
    later: Gate,
    live: bool,
    now: u64,
    live2: bool,
    now2: u64,
)
    requires
        get_step(s, m, gate, live, now).2 is Denied,
        later.generation == gate.generation,
        !later.allows || live_conn(s.conn, live2) is None,
    ensures
        ({
            let a = get_step(s, m, gate, live, now);
            let b = get_step(a.0, a.1, later, live2, now2);
            &&& b.2 is Denied
            &&& b.1.dials_suppressed == super::model::plus(a.1.dials_suppressed, 1)
        }),
{
}

/// When the generation moves and the membership gate admits the peer, it is dialed again at once:
/// blocks are lifted by events, never by a timer.
pub proof fn law_generation_change_reopens(
    s: SlotView,
    m: PoolMetrics,
    gate: Gate,
    now: u64,
    was: u64,
)
    requires
        s.blocked_generation == Some(was),
        was != gate.generation,
        gate.allows,
        !s.dialing,
    ensures
        get_step(s, m, gate, false, now).2 is Dial,
        reconcile_step(s, m, gate, false).0.blocked_generation is None,
        reconcile_step(s, m, gate, false).0.state is Idle,
{
}

/// One dial at a time: while one is in flight, nobody else is told to dial.
pub proof fn law_single_dialer(
    s: SlotView,
    m: PoolMetrics,
    gate: Gate,
    live: bool,
    now: u64,
    outcome: WaitOutcome,
)
    requires
        s.dialing,
    ensures
        !(get_step(s, m, gate, live, now).2 is Dial),
        !(wait_step(s, live, outcome).1 is Dial),
{
}

/// Whoever is told to dial holds the only dial in flight, and its end, good or bad,
/// releases it.
pub proof fn law_dial_is_released(
    s: SlotView,
    m: PoolMetrics,
    gate: Gate,
    live: bool,
    now: u64,
    new: u64,
    ours: bool,
    failure: DialFailure,
    random: u64,
)
    ensures
        get_step(s, m, gate, live, now).2 is Dial ==> get_step(s, m, gate, live, now).0.dialing,
        !dialed_step(s, m, new, gate, live, ours, now).0.dialing,
        !failed_step(s, m, failure, gate.generation, now, random).0.dialing,
{
}

/// A remote refusal pins the peer; nothing dials it again until the generation moves. A
/// connection that is open is still handed out.
pub proof fn law_remote_refusal_pins(
    s: SlotView,
    m: PoolMetrics,
    generation: u64,
    gate: Gate,
    live: bool,
    now: u64,
    random: u64,
    now2: u64,
)
    requires
        gate.generation == generation,
    ensures
        ({
            let a = failed_step(s, m, DialFailure::Blocked, generation, now, random);
            let r = get_step(a.0, a.1, gate, live, now2).2;
            if gate.allows && live_conn(s.conn, live) is Some {
                r == (GetStep::Ready { conn: live_conn(s.conn, live)->Some_0 })
            } else {
                r is Denied
            }
        }),
{
}

/// After a transient failure no dial starts before the backoff has run out.
pub proof fn law_backoff_suppresses(
    s: SlotView,
    m: PoolMetrics,
    gate: Gate,
    now: u64,
    random: u64,
    now2: u64,
)
    requires
        gate.allows,
        s.blocked_generation is None,
        s.conn is None,
        now2 < failed_step(
            s,
            m,
            DialFailure::Transient,
            gate.generation,
            now,
            random,
        ).0.backoff_until->Some_0,
    ensures
        ({
            let a = failed_step(s, m, DialFailure::Transient, gate.generation, now, random);
            get_step(a.0, a.1, gate, false, now2).2 is Suppressed
        }),
{
}

proof fn lemma_pow2_grows(a: nat, b: nat)
    requires
        a <= b,
    ensures
        1 <= pow2(a) <= pow2(b),
    decreases b,
{
    if a < b {
        lemma_pow2_grows(a, (b - 1) as nat);
    } else if b > 0 {
        lemma_pow2_grows((a - 1) as nat, (b - 1) as nat);
    }
}

/// The backoff is bounded, whatever chance gives, and its bound grows with the steps.
pub proof fn law_backoff_bounded(step: u32, later: u32, random: u64)
    requires
        step <= later,
    ensures
        backoff_bound(step) / 2 <= backoff_ms(step, random) <= backoff_bound(step),
        backoff_bound(step) <= backoff_bound(later) <= BACKOFF_CAP_MS,
{
    let a: nat = if step < 8 {
        step as nat
    } else {
        8
    };
    let b: nat = if later < 8 {
        later as nat
    } else {
        8
    };
    lemma_pow2_grows(a, b);
    assert(BACKOFF_BASE_MS * pow2(a) <= BACKOFF_BASE_MS * pow2(b)) by (nonlinear_arith)
        requires
            pow2(a) <= pow2(b),
    ;
}

/// Both ends keep the same one of two connections: one end prefers the connection that it
/// opened exactly when the other end prefers the one that it accepted.
pub proof fn law_tie_break_converges(a: EndpointId, b: EndpointId)
    requires
        a != b,
    ensures
        initiates(a, b) == !initiates(b, a),
        // `a` holds a connection that it accepted and dials another, `b` holds the one that
        // it opened and accepts another: `a` takes the new one exactly when `b` does.
        prefers_incoming(initiates(a, b), false, true) == prefers_incoming(
            initiates(b, a),
            true,
            false,
        ),
{
}

/// A dial that succeeds hands out every packet that waited for it.
pub proof fn law_flush_is_complete(
    s: SlotView,
    m: PoolMetrics,
    new: u64,
    gate: Gate,
    live: bool,
    ours: bool,
    now: u64,
)
    requires
        dialed_step(s, m, new, gate, live, ours, now).2 is Use,
    ensures
        dialed_step(s, m, new, gate, live, ours, now).3 == s.buffer,
        dialed_step(s, m, new, gate, live, ours, now).0.buffer.len() == 0,
{
}

} // verus!
