//! When a peer is dialed, what becomes of the packets that wait for it, and when its
//! connection is given up.

use super::model::{
    adopt_step, backoff_bound, close_step, dialed_step, extra_close_step, extra_dialed_step,
    extra_failed_step, extra_get_step, extra_reconcile_step, extra_wait_step, failed_step, get_step,
    idle_step, initiates, no_slot, pow2, reconcile_step, revoke_step, send_step, total, touch_step,
    wait_step, DialFailure, DialStep, ExtraSlot, Gate, GetStep, PeerConnState, PoolMetrics,
    SendStep, SlotView, WaitOutcome, WaitStep,
};
use super::shared::{normalized, stats_of, with_latency};
use vstd::prelude::*;

verus! {

/// A peer that the membership gate admits, that was not refused at this generation, and
/// that has no live connection and no dial in flight, is dialed as soon as its backoff has
/// run out, and not before. Whoever asks while a dial is in flight waits for it.
pub proof fn law_dialed_when_backoff_has_run_out(
    s: SlotView,
    m: PoolMetrics,
    gate: Gate,
    now: u64,
)
    requires
        gate.allows,
        s.blocked_generation != Some(gate.generation),
    ensures
        ({
            let (t, n, r) = get_step(s, m, gate, false, now);
            let ready = s.blocked_generation is Some || s.backoff_until is None || now
                >= s.backoff_until->0;
            &&& ready && !s.dialing ==> r == GetStep::Dial && t.dialing && t.state
                == PeerConnState::Dialing && n == m
            &&& ready && s.dialing ==> r == GetStep::Wait && t.dialing && n == m
            &&& !ready ==> r == GetStep::Suppressed && t.state == PeerConnState::Backoff
                && t.backoff_until == s.backoff_until && (m.dials_suppressed < u64::MAX
                ==> n.dials_suppressed == m.dials_suppressed + 1)
            &&& t.conn is None
            &&& t.buffer == s.buffer
        }),
{
}

/// The same for secondary protocols.
pub proof fn law_dialed_when_backoff_has_run_out_extra(
    s: ExtraSlot,
    m: PoolMetrics,
    gate: Gate,
    now: u64,
)
    requires
        gate.allows,
        s.blocked_generation != Some(gate.generation),
    ensures
        ({
            let (t, n, r) = extra_get_step(s, m, gate, false, now);
            let ready = s.blocked_generation is Some || s.backoff_until is None || now
                >= s.backoff_until->0;
            &&& ready && !s.dialing ==> r == GetStep::Dial && t.dialing && n == m
            &&& ready && s.dialing ==> r == GetStep::Wait && t.dialing && n == m
            &&& !ready ==> r == GetStep::Suppressed && t.backoff_until == s.backoff_until
            &&& t.conn is None
        }),
{
}

/// An open connection is handed out, without a dial, and counts as used.
pub proof fn law_open_connection_is_shared(
    s: SlotView,
    e: ExtraSlot,
    m: PoolMetrics,
    gate: Gate,
    now: u64,
    conn: u64,
)
    requires
        gate.allows,
        s.conn == Some(conn),
        e.conn == Some(conn),
    ensures
        get_step(s, m, gate, true, now).2 == (GetStep::Ready { conn }),
        get_step(s, m, gate, true, now).0.last_activity == now,
        get_step(s, m, gate, true, now).0.state == PeerConnState::Connected,
        get_step(s, m, gate, true, now).0.conn == Some(conn),
        get_step(s, m, gate, true, now).1 == m,
        extra_get_step(e, m, gate, true, now).2 == (GetStep::Ready { conn }),
        extra_get_step(e, m, gate, true, now).1 == m,
{
}

/// A transient failure puts the next dial off by a bounded time: after the first failure
/// by 100 to 200 ms, after each further one in a row by up to twice as long, never by more
/// than 30 s. What waited for the connection is dropped, and counted.
pub proof fn law_backoff_after_a_failure(
    s: SlotView,
    e: ExtraSlot,
    m: PoolMetrics,
    generation: u64,
    now: u64,
    random: u64,
)
    requires
        now < 0x8000_0000_0000_0000,
        m.reconnect_fail < u64::MAX,
        m.packets_dropped_timeout + s.buffer.len() <= u64::MAX,
        s.backoff_step < u32::MAX,
        e.backoff_step == s.backoff_step,
    ensures
        ({
            let (t, n) = failed_step(s, m, DialFailure::Transient, generation, now, random);
            let until = t.backoff_until->0;
            let longest = if s.backoff_step == 0 {
                200int
            } else if s.backoff_step == 1 {
                400
            } else if s.backoff_step == 2 {
                800
            } else if s.backoff_step == 3 {
                1600
            } else if s.backoff_step == 4 {
                3200
            } else if s.backoff_step == 5 {
                6400
            } else if s.backoff_step == 6 {
                12_800
            } else if s.backoff_step == 7 {
                25_600
            } else {
                30_000
            };
            &&& t.backoff_until is Some
            &&& now + longest * 500_000 <= until <= now + longest * 1_000_000
            &&& t.backoff_step == s.backoff_step + 1
            &&& t.state == PeerConnState::Backoff
            &&& !t.dialing
            &&& t.buffer.len() == 0
            &&& t.blocked_generation == s.blocked_generation
            &&& n.reconnect_fail == m.reconnect_fail + 1
            &&& n.packets_dropped_timeout == m.packets_dropped_timeout + s.buffer.len()
            &&& extra_failed_step(e, m, DialFailure::Transient, generation, now, random).0.backoff_until
                == t.backoff_until
            &&& extra_failed_step(e, m, DialFailure::Transient, generation, now, random).0.backoff_step
                == t.backoff_step
            &&& !extra_failed_step(e, m, DialFailure::Transient, generation, now, random).0.dialing
        }),
{
    reveal_with_fuel(pow2, 9);
    let cap = backoff_bound(s.backoff_step);
    assert(random as nat % (cap / 2 + 1) <= cap / 2) by (nonlinear_arith)
        requires
            cap >= 200,
    ;
}

/// So one transient failure never keeps a peer from being dialed: half a minute after it
/// at the latest, whoever asks dials.
pub proof fn law_failed_peer_is_dialed_again(
    s: SlotView,
    m: PoolMetrics,
    gate: Gate,
    now: u64,
    random: u64,
    then: u64,
)
    requires
        gate.allows,
        s.blocked_generation != Some(gate.generation),
        now < 0x8000_0000_0000_0000,
        then >= now + 30_000_000_000,
    ensures
        ({
            let a = failed_step(s, m, DialFailure::Transient, gate.generation, now, random);
            get_step(a.0, a.1, gate, false, then).2 == GetStep::Dial
        }),
{
    reveal_with_fuel(pow2, 9);
    let cap = backoff_bound(s.backoff_step);
    assert(random as nat % (cap / 2 + 1) <= cap / 2) by (nonlinear_arith)
        requires
            cap >= 200,
    ;
}

/// A refusal by the peer is no failure to wait out: it pins the peer at the generation of
/// the moment, drops what waited, counts it, and ends the dial.
pub proof fn law_refusal_pins_the_peer(
    s: SlotView,
    m: PoolMetrics,
    generation: u64,
    now: u64,
    random: u64,
)
    requires
        m.reconnect_fail < u64::MAX,
        m.packets_dropped_blocked + s.buffer.len() <= u64::MAX,
    ensures
        ({
            let (t, n) = failed_step(s, m, DialFailure::Blocked, generation, now, random);
            &&& t.blocked_generation == Some(generation)
            &&& t.backoff_until is None
            &&& t.state == PeerConnState::Blocked
            &&& !t.dialing
            &&& t.buffer.len() == 0
            &&& n.reconnect_fail == m.reconnect_fail + 1
            &&& n.packets_dropped_blocked == m.packets_dropped_blocked + s.buffer.len()
            &&& n.packets_dropped_timeout == m.packets_dropped_timeout
        }),
{
}

/// A dial that opens a connection to an admitted peer makes it the peer's connection, ends
/// the wait, and hands out all packets that waited, in order. Where the peer's own dial came
/// first, the connection that the end with the lower id opened stays, and the other is
/// closed.
pub proof fn law_dial_that_succeeds(
    s: SlotView,
    m: PoolMetrics,
    new: u64,
    gate: Gate,
    live: bool,
    local: (u128, u128),
    peer: (u128, u128),
    now: u64,
)
    requires
        gate.allows,
        s.blocked_generation != Some(gate.generation),
        !s.opened_by_us || !live || s.conn is None,
    ensures
        ({
            let lower = local.0 < peer.0 || (local.0 == peer.0 && local.1 < peer.1);
            let (t, n, r, flushed) = dialed_step(
                s,
                m,
                new,
                gate,
                live,
                initiates(local, peer),
                now,
            );
            &&& flushed == s.buffer
            &&& t.buffer.len() == 0
            &&& !t.dialing
            &&& n == m
            &&& !live || s.conn is None ==> r == (DialStep::Use { conn: new, close: None })
                && t.conn == Some(new) && t.opened_by_us && t.state == PeerConnState::Connected
                && t.last_activity == now
            &&& live && s.conn is Some && lower ==> r == (DialStep::Use {
                conn: new,
                close: s.conn,
            }) && t.conn == Some(new) && t.opened_by_us
            &&& live && s.conn is Some && !lower ==> r == (DialStep::Use {
                conn: s.conn->0,
                close: Some(new),
            }) && t.conn == s.conn && !t.opened_by_us
        }),
{
}

/// A connection that was opened while the peer lost its membership is not used: the peer
/// is pinned and what waited is dropped.
pub proof fn law_dial_to_a_refused_peer(
    s: SlotView,
    e: ExtraSlot,
    m: PoolMetrics,
    new: u64,
    gate: Gate,
    live: bool,
    ours: bool,
    now: u64,
)
    requires
        !gate.allows,
    ensures
        ({
            let (t, n, r, flushed) = dialed_step(s, m, new, gate, live, ours, now);
            &&& r is Refused
            &&& flushed.len() == 0
            &&& t.buffer.len() == 0
            &&& t.conn == s.conn
            &&& t.blocked_generation == Some(gate.generation)
            &&& t.state == PeerConnState::Blocked
        }),
        extra_dialed_step(e, new, gate).1 is Refused,
        extra_dialed_step(e, new, gate).0.blocked_generation == Some(gate.generation),
        extra_dialed_step(e, new, gate).0.conn == e.conn,
{
}

/// A secondary protocol's dial that succeeds: the connection is kept and the backoff starts
/// anew.
pub proof fn law_extra_dial_that_succeeds(s: ExtraSlot, new: u64, gate: Gate)
    requires
        gate.allows,
        s.blocked_generation != Some(gate.generation),
    ensures
        ({
            let (t, r) = extra_dialed_step(s, new, gate);
            &&& r == (DialStep::Use { conn: new, close: None })
            &&& t.conn == Some(new)
            &&& !t.dialing
            &&& t.backoff_until is None
            &&& t.backoff_step == 0
        }),
{
}

/// Whoever waited for a dial gets its connection or its failure; where neither came, an open
/// connection is taken, else one of them dials and the others wait on.
pub proof fn law_waiting_for_a_dial(s: SlotView, e: ExtraSlot, live: bool, conn: u64)
    requires
        e.conn == s.conn,
        e.dialing == s.dialing,
    ensures
        wait_step(s, live, WaitOutcome::Got { conn }).1 == (WaitStep::Ready { conn }),
        wait_step(s, live, WaitOutcome::Failed).1 == WaitStep::Failed,
        ({
            let (t, r) = wait_step(s, live, WaitOutcome::Lost);
            &&& live && s.conn is Some ==> r == (WaitStep::Ready { conn: s.conn->0 })
            &&& !(live && s.conn is Some) && s.dialing ==> r == WaitStep::Retry
            &&& !(live && s.conn is Some) && !s.dialing ==> r == WaitStep::Dial && t.dialing
            &&& extra_wait_step(e, live, WaitOutcome::Lost).1 == r
            &&& extra_wait_step(e, live, WaitOutcome::Lost).0.dialing == t.dialing
        }),
{
}

/// A packet for a peer with an open connection is sent on it. For an admitted peer without
/// one it waits, behind those that wait already, for the dial that is in flight or that it
/// asks for: at most 64 packets and a mebibyte wait. One that finds no room is dropped, and
/// counted; the others stay.
pub proof fn law_packet_is_sent_or_waits(
    s: SlotView,
    m: PoolMetrics,
    packet: Seq<u8>,
    gate: Gate,
    live: bool,
    now: u64,
)
    requires
        gate.allows,
        s.blocked_generation != Some(gate.generation),
        m.packets_buffered < u64::MAX,
        m.packets_dropped_timeout < u64::MAX,
    ensures
        ({
            let (t, n, r) = send_step(s, m, packet, gate, live, now);
            let open = live && s.conn is Some;
            let room = s.buffer.len() < 64 && total(s.buffer) + packet.len() <= 1_048_576;
            &&& open ==> r == (SendStep::Send { conn: s.conn->0 }) && t.buffer == s.buffer
                && t.last_activity == now && n == m
            &&& !open && room ==> t.buffer == s.buffer.push(packet) && n.packets_buffered
                == m.packets_buffered + 1 && (r == SendStep::Buffered || r
                == SendStep::BufferedDial)
            &&& !open && room && s.dialing ==> r == SendStep::Buffered
            &&& !open && room && !s.dialing && s.conn is Some ==> r == SendStep::BufferedDial
            &&& !open && room && !s.dialing && s.conn is None ==> (r == SendStep::BufferedDial) == (
            s.state != PeerConnState::Dialing && s.state != PeerConnState::Backoff)
            &&& !open && !room ==> r == SendStep::Full && t.buffer == s.buffer
                && n.packets_dropped_timeout == m.packets_dropped_timeout + 1
        }),
{
}

/// The bytes of packets are those of each.
pub proof fn law_bytes_that_wait(b: Seq<Seq<u8>>, p: Seq<u8>)
    ensures
        total(b.push(p)) == total(b) + p.len(),
        total(Seq::empty()) == 0,
{
    assert(b.push(p).drop_last() =~= b);
}

/// A packet for a peer that the membership gate refuses is dropped and counted, with all
/// that wait for it, and nothing is dialed.
pub proof fn law_packet_for_a_refused_peer(
    s: SlotView,
    m: PoolMetrics,
    packet: Seq<u8>,
    gate: Gate,
    now: u64,
)
    requires
        !gate.allows,
        s.blocked_generation is Some ==> s.buffer.len() == 0,
        m.packets_dropped_blocked + s.buffer.len() + 1 <= u64::MAX,
    ensures
        ({
            let (t, n, r) = send_step(s, m, packet, gate, false, now);
            &&& r is Denied
            &&& t.buffer.len() == 0
            &&& t.state == PeerConnState::Blocked
            &&& t.blocked_generation == Some(gate.generation)
            &&& n.packets_dropped_blocked == m.packets_dropped_blocked + s.buffer.len() + 1
            &&& n.packets_buffered == m.packets_buffered
        }),
{
}

/// A connection that comes in is kept where there is none, and hands nothing back to close.
/// Beside an open one, the one that the end with the lower id opened stays.
pub proof fn law_incoming_connection(
    s: SlotView,
    new: u64,
    live: bool,
    local: (u128, u128),
    peer: (u128, u128),
    now: u64,
)
    ensures
        ({
            let lower = local.0 < peer.0 || (local.0 == peer.0 && local.1 < peer.1);
            let (t, (kept, news, close)) = adopt_step(s, new, live, initiates(local, peer), now);
            let open = live && s.conn is Some;
            &&& !open ==> kept && news && close is None && t.conn == Some(new) && !t.opened_by_us
                && t.state == PeerConnState::Connected && t.last_activity == now
            &&& open && s.conn == Some(new) ==> kept && !news && close is None && t.conn == s.conn
            &&& open && s.conn != Some(new) && s.opened_by_us && !lower ==> kept && news && close
                == s.conn && t.conn == Some(new) && !t.opened_by_us
            &&& open && s.conn != Some(new) && !(s.opened_by_us && !lower) ==> !kept && !news
                && close is None && t == s
        }),
{
}

/// A change of membership takes effect at once: a peer that lost it loses its connection and
/// what waits for it; one that is admitted at a new generation is free again.
pub proof fn law_membership_changes_take_effect(
    s: SlotView,
    e: ExtraSlot,
    m: PoolMetrics,
    gate: Gate,
    live: bool,
)
    requires
        m.packets_dropped_blocked + s.buffer.len() <= u64::MAX,
    ensures
        ({
            let (t, n, close) = reconcile_step(s, m, gate, live);
            &&& !gate.allows ==> close == s.conn && t.conn is None && t.buffer.len() == 0
                && t.state == PeerConnState::Blocked && t.blocked_generation == Some(
                gate.generation,
            ) && n.packets_dropped_blocked == m.packets_dropped_blocked + s.buffer.len()
            &&& gate.allows && s.blocked_generation is Some && s.blocked_generation != Some(
                gate.generation,
            ) ==> close is None && t.conn == s.conn && t.blocked_generation is None
                && t.backoff_until is None && t.backoff_step == 0 && (t.state
                == PeerConnState::Connected) == (live && s.conn is Some)
            &&& gate.allows && s.blocked_generation is None ==> t == s && n == m && close is None
        }),
        !gate.allows ==> extra_reconcile_step(e, gate).1 == e.conn && extra_reconcile_step(
            e,
            gate,
        ).0.conn is None && extra_reconcile_step(e, gate).0.blocked_generation == Some(
            gate.generation,
        ),
        gate.allows ==> extra_reconcile_step(e, gate).1 is None && extra_reconcile_step(
            e,
            gate,
        ).0.conn == e.conn,
{
}

/// A peer that is revoked loses its connection and what waits for it, and is pinned.
pub proof fn law_revoked_peer_is_cut_off(s: SlotView, m: PoolMetrics, generation: u64)
    requires
        m.packets_dropped_blocked + s.buffer.len() <= u64::MAX,
    ensures
        ({
            let (t, n, close) = revoke_step(s, m, generation);
            &&& close == s.conn
            &&& t.conn is None
            &&& t.buffer.len() == 0
            &&& t.state == PeerConnState::Blocked
            &&& t.blocked_generation == Some(generation)
            &&& n.packets_dropped_blocked == m.packets_dropped_blocked + s.buffer.len()
        }),
{
}

/// When the data plane goes down every connection is closed and every grudge forgotten.
pub proof fn law_close_forgets(s: SlotView, e: ExtraSlot)
    ensures
        close_step(s).1 == s.conn,
        close_step(s).0.conn is None,
        close_step(s).0.state == PeerConnState::Idle,
        close_step(s).0.buffer.len() == 0,
        close_step(s).0.blocked_generation is None,
        close_step(s).0.backoff_until is None,
        close_step(s).0.backoff_step == 0,
        extra_close_step(e).1 == e.conn,
        extra_close_step(e).0.conn is None,
        extra_close_step(e).0.blocked_generation is None,
        extra_close_step(e).0.backoff_until is None,
{
}

/// An idle connection is closed: one that saw nothing for the whole timeout, of a peer that
/// nobody keeps alive. No other is.
pub proof fn law_idle_connection_is_closed(s: SlotView, kept: bool, timeout: u64, now: u64)
    ensures
        ({
            let (t, close) = idle_step(s, kept, timeout, now);
            let idle = s.state == PeerConnState::Connected && !kept && !s.peer_keep_alive && now
                >= s.last_activity + timeout;
            &&& idle ==> close == s.conn && t.conn is None && t.state == PeerConnState::Idle
            &&& !idle && (timeout > 0 || now >= s.last_activity) ==> close is None && t == s
        }),
{
}

/// Traffic renews a connection's time, and shows that a live one is connected.
pub proof fn law_traffic_renews_a_connection(s: SlotView, live: bool, now: u64)
    ensures
        touch_step(s, live, now).last_activity == now,
        touch_step(s, live, now).conn == s.conn,
        live && s.conn is Some ==> touch_step(s, live, now).state == PeerConnState::Connected,
        !live ==> touch_step(s, live, now).state == s.state,
{
}

/// A peer that is not known yet is idle, has nothing that waits, and may be dialed at once.
pub proof fn law_new_peer(now: u64, m: PoolMetrics, gate: Gate, then: u64)
    requires
        gate.allows,
    ensures
        no_slot(now).conn is None,
        no_slot(now).buffer.len() == 0,
        no_slot(now).state == PeerConnState::Idle,
        get_step(no_slot(now), m, gate, false, then).2 == GetStep::Dial,
{
}

/// The statistics are the counters, with the mean of the times that dials took.
pub proof fn law_statistics_of_dials(m: PoolMetrics, us: u64)
    requires
        m.reconnect_success < u64::MAX,
        m.reconnect_latency_sum_us + us <= u64::MAX,
    ensures
        ({
            let n = with_latency(m, us);
            let s = stats_of(n);
            &&& s.reconnect_success == m.reconnect_success + 1
            &&& s.reconnect_latency_avg_us * s.reconnect_success <= m.reconnect_latency_sum_us + us
            &&& m.reconnect_latency_sum_us + us < (s.reconnect_latency_avg_us + 1)
                * s.reconnect_success
            &&& s.reconnect_latency_max_us >= us
            &&& s.reconnect_latency_max_us == us || s.reconnect_latency_max_us
                == m.reconnect_latency_max_us
            &&& s.reconnect_latency_max_us >= m.reconnect_latency_max_us
            &&& s.dials_suppressed == m.dials_suppressed
            &&& s.packets_dropped_blocked == m.packets_dropped_blocked
            &&& s.packets_dropped_timeout == m.packets_dropped_timeout
            &&& s.packets_buffered == m.packets_buffered
            &&& s.reconnect_attempts == m.reconnect_attempts
            &&& s.reconnect_fail == m.reconnect_fail
        }),
{
    let a = m.reconnect_latency_sum_us + us;
    let b = m.reconnect_success + 1;
    assert(a / b * b <= a < (a / b + 1) * b) by (nonlinear_arith)
        requires
            b > 0,
            a >= 0,
    ;
}

/// A relay is known by its address, whatever slashes stand at its end.
pub proof fn law_relay_address(url: Seq<char>, n: nat)
    requires
        url.len() > 0 ==> url.last() != '/',
    ensures
        normalized(url + Seq::new(n, |i: int| '/')) == url,
    decreases n,
{
    let d = Seq::new(n, |i: int| '/');
    if n == 0 {
        assert(url + d =~= url);
    } else {
        let e = Seq::new((n - 1) as nat, |i: int| '/');
        law_relay_address(url, (n - 1) as nat);
        assert((url + d).drop_last() =~= url + e);
    }
}

} // verus!
