//! The life of a peer's connection, as steps on plain values. Whether a connection is
//! still open, the time, chance and the membership gate are given to each step.

use vstd::prelude::*;

verus! {

pub const DEFAULT_IDLE_SECS: u64 = 120;

/// Nanoseconds after which a dial is given up.
pub const RECONNECT_TIMEOUT: u64 = 5_000_000_000;

pub const MAX_BUFFER_PACKETS: usize = 64;

pub const MAX_BUFFER_BYTES: usize = 1_048_576;

/// Bounds of the backoff (milliseconds).
pub const BACKOFF_BASE_MS: u64 = 200;

pub const BACKOFF_CAP_MS: u64 = 30_000;

/// Classified dial outcome: `Blocked` retries only after authorizing state
/// changes, `Transient` retries with backoff.
#[derive(Debug, Clone, Copy, PartialEq, Eq, Structural)]
pub enum DialFailure {
    Blocked,
    Transient,
}

#[derive(Debug, Clone, Copy, PartialEq, Eq, Structural)]
pub enum PeerConnState {
    Connected,
    Dialing,
    Idle,
    Backoff,
    Blocked,
}

/// What the membership gate says of a peer. Without a gate everything is allowed, at
/// generation zero.
#[derive(Debug, Clone, Copy, PartialEq, Eq, Structural)]
pub struct Gate {
    pub allows: bool,
    pub generation: u64,
}

#[derive(Debug, Clone, Copy, PartialEq, Eq, Structural)]
pub struct PoolMetrics {
    pub reconnect_attempts: u64,
    pub reconnect_success: u64,
    pub reconnect_fail: u64,
    pub packets_buffered: u64,
    pub packets_dropped_timeout: u64,
    pub packets_dropped_blocked: u64,
    pub dials_suppressed: u64,
    pub reconnect_latency_sum_us: u64,
    pub reconnect_latency_max_us: u64,
}

/// The state of one peer on the default protocol. Connections are known by their stable
/// ids.
pub struct SlotView {
    pub conn: Option<u64>,
    pub opened_by_us: bool,
    pub state: PeerConnState,
    pub last_activity: u64,
    pub peer_keep_alive: bool,
    pub buffer: Seq<Seq<u8>>,
    pub dialing: bool,
    pub blocked_generation: Option<u64>,
    pub backoff_until: Option<u64>,
    pub backoff_step: u32,
}

/// The state of one peer on a secondary protocol.
#[derive(Debug, Clone, Copy, PartialEq, Eq, Structural)]
pub struct ExtraSlot {
    pub conn: Option<u64>,
    pub dialing: bool,
    pub blocked_generation: Option<u64>,
    pub backoff_until: Option<u64>,
    pub backoff_step: u32,
}

/// What a request for a connection comes to.
#[derive(Debug, Clone, Copy, PartialEq, Eq, Structural)]
pub enum GetStep {
    /// Not an authorized peer. Those who wait for a dial, if any, are told so.
    Denied { fail_waiters: bool },
    Ready { conn: u64 },
    /// Too soon after a failed dial.
    Suppressed,
    /// Another caller dials; await its result.
    Wait,
    /// Dial, and report what came of it.
    Dial,
}

/// What a caller that waited for another's dial was told.
#[derive(Debug, Clone, Copy, PartialEq, Eq, Structural)]
pub enum WaitOutcome {
    Got { conn: u64 },
    Failed,
    /// The dialer vanished without a result.
    Lost,
}

#[derive(Debug, Clone, Copy, PartialEq, Eq, Structural)]
pub enum WaitStep {
    Ready { conn: u64 },
    Failed,
    /// Ask anew.
    Retry,
    Dial,
}

/// What becomes of a connection that a dial opened.
#[derive(Debug, Clone, Copy, PartialEq, Eq, Structural)]
pub enum DialStep {
    /// The peer lost its authorization meanwhile: close the connection.
    Refused { fail_waiters: bool },
    /// Use `conn`, tell the waiters, close the other one if there is one.
    Use { conn: u64, close: Option<u64> },
}

/// What becomes of a packet.
#[derive(Debug, Clone, Copy, PartialEq, Eq, Structural)]
pub enum SendStep {
    Send { conn: u64 },
    Denied { fail_waiters: bool },
    Full,
    Buffered,
    /// Buffered, and the peer is to be dialed.
    BufferedDial,
}

/// A counter that went up by `n`; it wraps around.
pub open spec fn plus(c: u64, n: nat) -> u64 {
    ((c + n) % 0x1_0000_0000_0000_0000) as u64
}

pub open spec fn total(b: Seq<Seq<u8>>) -> nat
    decreases b.len(),
{
    if b.len() == 0 {
        0
    } else {
        total(b.drop_last()) + b.last().len()
    }
}

pub open spec fn no_slot(now: u64) -> SlotView {
    SlotView {
        conn: None,
        opened_by_us: false,
        state: PeerConnState::Idle,
        last_activity: now,
        peer_keep_alive: false,
        buffer: Seq::empty(),
        dialing: false,
        blocked_generation: None,
        backoff_until: None,
        backoff_step: 0,
    }
}

pub open spec fn no_extra() -> ExtraSlot {
    ExtraSlot {
        conn: None,
        dialing: false,
        blocked_generation: None,
        backoff_until: None,
        backoff_step: 0,
    }
}

/// The connection, if it is still open.
pub open spec fn live_conn(conn: Option<u64>, live: bool) -> Option<u64> {
    if live {
        conn
    } else {
        None
    }
}

/// The peer is pinned blocked: it was refused at this very generation.
pub open spec fn pinned(blocked: Option<u64>, gate: Gate) -> bool {
    blocked == Some(gate.generation)
}

/// Pin a slot blocked at the current generation: the buffer is dropped and counted.
pub open spec fn blocked_at(s: SlotView, generation: u64) -> SlotView {
    SlotView {
        buffer: Seq::empty(),
        blocked_generation: Some(generation),
        backoff_until: None,
        state: PeerConnState::Blocked,
        dialing: false,
        ..s
    }
}

/// A block of an earlier generation is lifted.
pub open spec fn unblocked(s: SlotView) -> SlotView {
    if s.blocked_generation is Some {
        SlotView { blocked_generation: None, backoff_until: None, backoff_step: 0, ..s }
    } else {
        s
    }
}

/// A connection is asked for. One that is open is handed out wherever the membership gate
/// admits the peer: a pin keeps the peer from being dialed.
pub open spec fn get_step(s: SlotView, m: PoolMetrics, gate: Gate, live: bool, now: u64) -> (
    SlotView,
    PoolMetrics,
    GetStep,
) {
    if gate.allows && live_conn(s.conn, live) is Some {
        (
            SlotView {
                last_activity: now,
                state: PeerConnState::Connected,
                ..if pinned(s.blocked_generation, gate) {
                    s
                } else {
                    unblocked(s)
                }
            },
            m,
            GetStep::Ready { conn: live_conn(s.conn, live)->Some_0 },
        )
    } else if pinned(s.blocked_generation, gate) {
        (
            SlotView { state: PeerConnState::Blocked, ..s },
            PoolMetrics { dials_suppressed: plus(m.dials_suppressed, 1), ..m },
            GetStep::Denied { fail_waiters: false },
        )
    } else if !gate.allows {
        (
            blocked_at(s, gate.generation),
            PoolMetrics {
                packets_dropped_blocked: plus(m.packets_dropped_blocked, s.buffer.len()),
                ..m
            },
            GetStep::Denied { fail_waiters: s.dialing },
        )
    } else {
        let s = SlotView { conn: None, ..unblocked(s) };
        if s.backoff_until is Some && now < s.backoff_until->Some_0 {
            (
                SlotView { state: PeerConnState::Backoff, ..s },
                PoolMetrics { dials_suppressed: plus(m.dials_suppressed, 1), ..m },
                GetStep::Suppressed,
            )
        } else if s.dialing {
            (s, m, GetStep::Wait)
        } else {
            (SlotView { dialing: true, state: PeerConnState::Dialing, ..s }, m, GetStep::Dial)
        }
    }
}

pub open spec fn wait_step(s: SlotView, live: bool, outcome: WaitOutcome) -> (SlotView, WaitStep) {
    match outcome {
        WaitOutcome::Got { conn } => (s, WaitStep::Ready { conn }),
        WaitOutcome::Failed => (s, WaitStep::Failed),
        WaitOutcome::Lost => match live_conn(s.conn, live) {
            Some(conn) => (s, WaitStep::Ready { conn }),
            None => if s.dialing {
                (s, WaitStep::Retry)
            } else {
                (
                    SlotView { dialing: true, state: PeerConnState::Dialing, ..s },
                    WaitStep::Dial,
                )
            },
        },
    }
}

/// The tie-break of two connections: the one that the canonical initiator opened stays.
pub open spec fn prefers_incoming(want_ours: bool, existing_ours: bool, incoming_ours: bool) -> bool {
    existing_ours != want_ours && incoming_ours == want_ours
}

/// The endpoint with the lower id is the canonical initiator.
pub open spec fn initiates(local: (u128, u128), peer: (u128, u128)) -> bool {
    local.0 < peer.0 || (local.0 == peer.0 && local.1 < peer.1)
}

/// The slot with a new connection.
pub open spec fn connected(s: SlotView, conn: u64, ours: bool, now: u64) -> SlotView {
    SlotView {
        conn: Some(conn),
        opened_by_us: ours,
        state: PeerConnState::Connected,
        last_activity: now,
        ..s
    }
}

/// A dial opened a connection. The packets that waited for it are handed out. A peer that
/// was pinned meanwhile is refused, unless a connection from it is open.
pub open spec fn dialed_step(
    s: SlotView,
    m: PoolMetrics,
    new: u64,
    gate: Gate,
    live: bool,
    want_ours: bool,
    now: u64,
) -> (SlotView, PoolMetrics, DialStep, Seq<Seq<u8>>) {
    if !gate.allows || (pinned(s.blocked_generation, gate) && live_conn(s.conn, live) is None) {
        (
            blocked_at(s, gate.generation),
            PoolMetrics {
                packets_dropped_blocked: plus(m.packets_dropped_blocked, s.buffer.len()),
                ..m
            },
            DialStep::Refused { fail_waiters: s.dialing },
            Seq::empty(),
        )
    } else {
        let t = SlotView { dialing: false, buffer: Seq::empty(), ..s };
        match live_conn(s.conn, live) {
            Some(existing) => if prefers_incoming(want_ours, s.opened_by_us, true) {
                (
                    connected(t, new, true, now),
                    m,
                    DialStep::Use { conn: new, close: Some(existing) },
                    s.buffer,
                )
            } else {
                (t, m, DialStep::Use { conn: existing, close: Some(new) }, s.buffer)
            },
            None => (
                connected(t, new, true, now),
                m,
                DialStep::Use { conn: new, close: None },
                s.buffer,
            ),
        }
    }
}

/// Bounded exponential backoff with jitter (milliseconds): between half of the bound and
/// the bound, which doubles with each step.
pub open spec fn backoff_bound(step: u32) -> nat {
    let shift = if step < 8 {
        step
    } else {
        8
    };
    let base = BACKOFF_BASE_MS * pow2(shift as nat);
    if base < BACKOFF_CAP_MS {
        base as nat
    } else {
        BACKOFF_CAP_MS as nat
    }
}

pub open spec fn pow2(n: nat) -> nat
    decreases n,
{
    if n == 0 {
        1
    } else {
        2 * pow2((n - 1) as nat)
    }
}

pub open spec fn backoff_ms(step: u32, random: u64) -> nat {
    let cap = backoff_bound(step);
    (cap / 2 + random as nat % (cap / 2 + 1)) as nat
}

/// The time `ms` milliseconds after `now`, as far as it fits.
pub open spec fn after_ms(now: u64, ms: nat) -> u64 {
    if now + ms * 1_000_000 > u64::MAX {
        u64::MAX
    } else {
        (now + ms * 1_000_000) as u64
    }
}

pub open spec fn one_step(n: u32) -> u32 {
    if n == u32::MAX {
        n
    } else {
        (n + 1) as u32
    }
}

/// A dial failed.
pub open spec fn failed_step(
    s: SlotView,
    m: PoolMetrics,
    failure: DialFailure,
    generation: u64,
    now: u64,
    random: u64,
) -> (SlotView, PoolMetrics) {
    match failure {
        DialFailure::Blocked => (
            blocked_at(s, generation),
            PoolMetrics {
                reconnect_fail: plus(m.reconnect_fail, 1),
                packets_dropped_blocked: plus(m.packets_dropped_blocked, s.buffer.len()),
                ..m
            },
        ),
        DialFailure::Transient => (
            SlotView {
                buffer: Seq::empty(),
                backoff_step: one_step(s.backoff_step),
                backoff_until: Some(after_ms(now, backoff_ms(s.backoff_step, random))),
                state: PeerConnState::Backoff,
                dialing: false,
                ..s
            },
            PoolMetrics {
                reconnect_fail: plus(m.reconnect_fail, 1),
                packets_dropped_timeout: plus(m.packets_dropped_timeout, s.buffer.len()),
                ..m
            },
        ),
    }
}

/// The packet fits into the buffer.
pub open spec fn fits(b: Seq<Seq<u8>>, packet: Seq<u8>) -> bool {
    b.len() < MAX_BUFFER_PACKETS && total(b) + packet.len() <= MAX_BUFFER_BYTES
}

/// A packet is to be sent. Blocked peers fail at once: nothing is queued for them.
pub open spec fn send_step(
    s: SlotView,
    m: PoolMetrics,
    packet: Seq<u8>,
    gate: Gate,
    live: bool,
    now: u64,
) -> (SlotView, PoolMetrics, SendStep) {
    match live_conn(s.conn, live) {
        Some(conn) => (SlotView { last_activity: now, ..s }, m, SendStep::Send { conn }),
        None => {
            let s = if s.conn is Some {
                SlotView { conn: None, state: PeerConnState::Idle, ..s }
            } else {
                s
            };
            if pinned(s.blocked_generation, gate) {
                (
                    SlotView { state: PeerConnState::Blocked, ..s },
                    PoolMetrics {
                        packets_dropped_blocked: plus(m.packets_dropped_blocked, 1),
                        ..m
                    },
                    SendStep::Denied { fail_waiters: false },
                )
            } else if !gate.allows {
                (
                    blocked_at(s, gate.generation),
                    PoolMetrics {
                        packets_dropped_blocked: plus(
                            m.packets_dropped_blocked,
                            s.buffer.len() + 1,
                        ),
                        ..m
                    },
                    SendStep::Denied { fail_waiters: s.dialing },
                )
            } else {
                let s = unblocked(s);
                if !fits(s.buffer, packet) {
                    (
                        s,
                        PoolMetrics {
                            packets_dropped_timeout: plus(m.packets_dropped_timeout, 1),
                            ..m
                        },
                        SendStep::Full,
                    )
                } else {
                    let m = PoolMetrics { packets_buffered: plus(m.packets_buffered, 1), ..m };
                    let s = SlotView { buffer: s.buffer.push(packet), ..s };
                    if s.state is Dialing || s.state is Backoff || s.dialing {
                        (s, m, SendStep::Buffered)
                    } else {
                        (
                            SlotView { state: PeerConnState::Dialing, ..s },
                            m,
                            SendStep::BufferedDial,
                        )
                    }
                }
            }
        },
    }
}

/// A connection was accepted. Tells whether it is kept, whether it is news, and which
/// connection is closed for it.
pub open spec fn adopt_step(s: SlotView, new: u64, live: bool, want_ours: bool, now: u64) -> (
    SlotView,
    (bool, bool, Option<u64>),
) {
    match live_conn(s.conn, live) {
        Some(existing) => if existing == new {
            (SlotView { last_activity: now, ..s }, (true, false, None))
        } else if !prefers_incoming(want_ours, s.opened_by_us, false) {
            (s, (false, false, None))
        } else {
            (connected(s, new, false, now), (true, true, Some(existing)))
        },
        None => (connected(s, new, false, now), (true, true, None)),
    }
}

/// Membership or policy changed: a refused peer loses its connection and its buffer, and
/// a block of an earlier generation is lifted. Hands out the connection to close.
pub open spec fn reconcile_step(s: SlotView, m: PoolMetrics, gate: Gate, live: bool) -> (
    SlotView,
    PoolMetrics,
    Option<u64>,
) {
    if !gate.allows {
        (
            SlotView { conn: None, ..blocked_at(s, gate.generation) },
            PoolMetrics {
                packets_dropped_blocked: plus(m.packets_dropped_blocked, s.buffer.len()),
                ..m
            },
            s.conn,
        )
    } else if s.blocked_generation is Some && !pinned(s.blocked_generation, gate) {
        (
            SlotView {
                state: if live_conn(s.conn, live) is Some {
                    PeerConnState::Connected
                } else {
                    PeerConnState::Idle
                },
                ..unblocked(s)
            },
            m,
            None,
        )
    } else {
        (s, m, None)
    }
}

/// The peer is revoked: its connection is closed and it is pinned blocked.
pub open spec fn revoke_step(s: SlotView, m: PoolMetrics, generation: u64) -> (
    SlotView,
    PoolMetrics,
    Option<u64>,
) {
    (
        SlotView { conn: None, ..blocked_at(s, generation) },
        PoolMetrics {
            packets_dropped_blocked: plus(m.packets_dropped_blocked, s.buffer.len()),
            ..m
        },
        s.conn,
    )
}

/// The data plane goes down.
pub open spec fn close_step(s: SlotView) -> (SlotView, Option<u64>) {
    (
        SlotView {
            conn: None,
            opened_by_us: false,
            state: PeerConnState::Idle,
            blocked_generation: None,
            backoff_until: None,
            backoff_step: 0,
            buffer: Seq::empty(),
            ..s
        },
        s.conn,
    )
}

/// A connected peer that nobody keeps alive and that was idle for the timeout.
pub open spec fn is_idle(s: SlotView, kept: bool, timeout: u64, now: u64) -> bool {
    !kept && !s.peer_keep_alive && s.state is Connected && (if now >= s.last_activity {
        now - s.last_activity
    } else {
        0
    }) >= timeout
}

/// The sweeper closes the connections of idle peers.
pub open spec fn idle_step(s: SlotView, kept: bool, timeout: u64, now: u64) -> (
    SlotView,
    Option<u64>,
) {
    if is_idle(s, kept, timeout, now) {
        (SlotView { conn: None, state: PeerConnState::Idle, ..s }, s.conn)
    } else {
        (s, None)
    }
}

/// Traffic was seen on a peer's connection.
pub open spec fn touch_step(s: SlotView, live: bool, now: u64) -> SlotView {
    SlotView {
        last_activity: now,
        state: if live_conn(s.conn, live) is Some {
            PeerConnState::Connected
        } else {
            s.state
        },
        ..s
    }
}

// Secondary protocols: the same protections, without a buffer.

pub open spec fn extra_unblocked(s: ExtraSlot) -> ExtraSlot {
    if s.blocked_generation is Some {
        ExtraSlot { blocked_generation: None, backoff_until: None, backoff_step: 0, ..s }
    } else {
        s
    }
}

pub open spec fn extra_blocked_at(s: ExtraSlot, generation: u64) -> ExtraSlot {
    ExtraSlot {
        blocked_generation: Some(generation),
        backoff_until: None,
        dialing: false,
        ..s
    }
}

/// As [`get_step`], with the same retry protections: a peer that the membership gate
/// refuses is dialed by nobody, those who wait for a connection included.
pub open spec fn extra_get_step(
    s: ExtraSlot,
    m: PoolMetrics,
    gate: Gate,
    live: bool,
    now: u64,
) -> (ExtraSlot, PoolMetrics, GetStep) {
    if gate.allows && live_conn(s.conn, live) is Some {
        (
            if pinned(s.blocked_generation, gate) {
                s
            } else {
                extra_unblocked(s)
            },
            m,
            GetStep::Ready { conn: live_conn(s.conn, live)->Some_0 },
        )
    } else if pinned(s.blocked_generation, gate) {
        (
            s,
            PoolMetrics { dials_suppressed: plus(m.dials_suppressed, 1), ..m },
            GetStep::Denied { fail_waiters: false },
        )
    } else if !gate.allows {
        (
            extra_blocked_at(s, gate.generation),
            m,
            GetStep::Denied { fail_waiters: s.dialing },
        )
    } else {
        let s = ExtraSlot { conn: None, ..extra_unblocked(s) };
        if s.backoff_until is Some && now < s.backoff_until->Some_0 {
            (
                s,
                PoolMetrics { dials_suppressed: plus(m.dials_suppressed, 1), ..m },
                GetStep::Suppressed,
            )
        } else if s.dialing {
            (s, m, GetStep::Wait)
        } else {
            (ExtraSlot { dialing: true, ..s }, m, GetStep::Dial)
        }
    }
}

pub open spec fn extra_wait_step(s: ExtraSlot, live: bool, outcome: WaitOutcome) -> (
    ExtraSlot,
    WaitStep,
) {
    match outcome {
        WaitOutcome::Got { conn } => (s, WaitStep::Ready { conn }),
        WaitOutcome::Failed => (s, WaitStep::Failed),
        WaitOutcome::Lost => match live_conn(s.conn, live) {
            Some(conn) => (s, WaitStep::Ready { conn }),
            None => if s.dialing {
                (s, WaitStep::Retry)
            } else {
                (ExtraSlot { dialing: true, ..s }, WaitStep::Dial)
            },
        },
    }
}

pub open spec fn extra_dialed_step(s: ExtraSlot, new: u64, gate: Gate) -> (ExtraSlot, DialStep) {
    if !gate.allows || pinned(s.blocked_generation, gate) {
        (extra_blocked_at(s, gate.generation), DialStep::Refused { fail_waiters: s.dialing })
    } else {
        (
            ExtraSlot {
                conn: Some(new),
                backoff_until: None,
                backoff_step: 0,
                dialing: false,
                ..s
            },
            DialStep::Use { conn: new, close: None },
        )
    }
}

pub open spec fn extra_failed_step(
    s: ExtraSlot,
    m: PoolMetrics,
    failure: DialFailure,
    generation: u64,
    now: u64,
    random: u64,
) -> (ExtraSlot, PoolMetrics) {
    let m = PoolMetrics { reconnect_fail: plus(m.reconnect_fail, 1), ..m };
    match failure {
        DialFailure::Blocked => (extra_blocked_at(s, generation), m),
        DialFailure::Transient => (
            ExtraSlot {
                backoff_step: one_step(s.backoff_step),
                backoff_until: Some(after_ms(now, backoff_ms(s.backoff_step, random))),
                dialing: false,
                ..s
            },
            m,
        ),
    }
}

pub open spec fn extra_reconcile_step(s: ExtraSlot, gate: Gate) -> (ExtraSlot, Option<u64>) {
    if !gate.allows {
        (ExtraSlot { conn: None, ..extra_blocked_at(s, gate.generation) }, s.conn)
    } else if s.blocked_generation is Some && !pinned(s.blocked_generation, gate) {
        (extra_unblocked(s), None)
    } else {
        (s, None)
    }
}

pub open spec fn extra_close_step(s: ExtraSlot) -> (ExtraSlot, Option<u64>) {
    (
        ExtraSlot { conn: None, blocked_generation: None, backoff_until: None, backoff_step: 0, ..s },
        s.conn,
    )
}

} // verus!
