//! One peer's connection state.

use super::model::{
    adopt_step, backoff_bound, backoff_ms, blocked_at, close_step, dialed_step, failed_step, fits,
    get_step, idle_step, initiates, live_conn, no_slot, pinned, plus, pow2, prefers_incoming,
    reconcile_step, revoke_step, send_step, total, touch_step, unblocked, wait_step, DialFailure,
    DialStep, Gate, GetStep, PeerConnState, PoolMetrics, SendStep, SlotView, WaitOutcome, WaitStep,
    BACKOFF_BASE_MS, BACKOFF_CAP_MS, MAX_BUFFER_BYTES, MAX_BUFFER_PACKETS,
};
use crate::chance::random_u64;
use crate::endpoint::EndpointId;
use crate::text::{chars_of, contains_text, holds};
use std::collections::VecDeque;
use vstd::prelude::*;
use vstd::string::*;

verus! {

/// The name of a state.
pub open spec fn state_name(s: PeerConnState) -> Seq<char> {
    match s {
        PeerConnState::Connected => "connected"@,
        PeerConnState::Dialing => "dialing"@,
        PeerConnState::Idle => "idle"@,
        PeerConnState::Backoff => "backoff"@,
        PeerConnState::Blocked => "blocked"@,
    }
}

impl PeerConnState {
    pub fn as_str(self) -> (s: &'static str)
        ensures
            s@ == state_name(self),
    {
        match self {
            Self::Connected => "connected",
            Self::Dialing => "dialing",
            Self::Idle => "idle",
            Self::Backoff => "backoff",
            Self::Blocked => "blocked",
        }
    }
}

impl Default for PoolMetrics {
    fn default() -> (m: Self)
        ensures
            m == zero_metrics(),
    {
        PoolMetrics {
            reconnect_attempts: 0,
            reconnect_success: 0,
            reconnect_fail: 0,
            packets_buffered: 0,
            packets_dropped_timeout: 0,
            packets_dropped_blocked: 0,
            dials_suppressed: 0,
            reconnect_latency_sum_us: 0,
            reconnect_latency_max_us: 0,
        }
    }
}

pub open spec fn zero_metrics() -> PoolMetrics {
    PoolMetrics {
        reconnect_attempts: 0,
        reconnect_success: 0,
        reconnect_fail: 0,
        packets_buffered: 0,
        packets_dropped_timeout: 0,
        packets_dropped_blocked: 0,
        dials_suppressed: 0,
        reconnect_latency_sum_us: 0,
        reconnect_latency_max_us: 0,
    }
}

/// A counter that went up by `n`.
pub fn bump(c: u64, n: u64) -> (r: u64)
    ensures
        r == plus(c, n as nat),
{
    c.wrapping_add(n)
}

/// The backoff after `step` failures, with the jitter that a random number makes
/// (milliseconds).
pub fn delay_after(step: u32, random: u64) -> (ms: u64)
    ensures
        ms == backoff_ms(step, random),
        backoff_bound(step) / 2 <= ms <= BACKOFF_CAP_MS,
{
    let shift: u32 = if step < 8 {
        step
    } else {
        8
    };
    let mut base: u64 = BACKOFF_BASE_MS;
    proof {
        lemma_pow2_monotone(0, 8);
    }
    let mut i: u32 = 0;
    while i < shift
        invariant
            i <= shift <= 8,
            base == BACKOFF_BASE_MS * pow2(i as nat),
            base <= BACKOFF_BASE_MS * pow2(8),
            pow2(8) == 256,
        decreases shift - i,
    {
        proof {
            lemma_pow2_monotone((i + 1) as nat, 8);
            assert(BACKOFF_BASE_MS * pow2((i + 1) as nat) == 2 * (BACKOFF_BASE_MS * pow2(i as nat)))
                by (nonlinear_arith)
                requires
                    pow2((i + 1) as nat) == 2 * pow2(i as nat),
            ;
            assert(BACKOFF_BASE_MS * pow2((i + 1) as nat) <= BACKOFF_BASE_MS * pow2(8))
                by (nonlinear_arith)
                requires
                    pow2((i + 1) as nat) <= pow2(8),
            ;
        }
        base = base * 2;
        i += 1;
    }
    let cap: u64 = if base < BACKOFF_CAP_MS {
        base
    } else {
        BACKOFF_CAP_MS
    };
    let half: u64 = cap / 2;
    let jitter: u64 = random % (half + 1);
    half + jitter
}

proof fn lemma_pow2_monotone(a: nat, b: nat)
    requires
        a <= b,
    ensures
        1 <= pow2(a) <= pow2(b),
        pow2(8) == 256,
    decreases b,
{
    reveal_with_fuel(pow2, 9);
    if a < b {
        lemma_pow2_monotone(a, (b - 1) as nat);
    } else if b > 0 {
        lemma_pow2_monotone((a - 1) as nat, (b - 1) as nat);
    }
}

/// Bounded exponential backoff with jitter for transient dial failures (milliseconds).
pub fn backoff_delay(step: u32) -> (ms: u64)
    ensures
        exists|random: u64| ms == #[trigger] backoff_ms(step, random),
        backoff_bound(step) / 2 <= ms <= BACKOFF_CAP_MS,
{
    let random: u64 = random_u64();
    delay_after(step, random)
}

/// The message tells of a rejection that will not change by itself: it carries one of the
/// reasons with which a peer closes (`not_member`, `auth_required`; `policy_deny` from
/// older peers).
pub open spec fn deterministic(msg: Seq<char>) -> bool {
    contains_text(msg, "not_member"@) || contains_text(msg, "policy_deny"@) || contains_text(
        msg,
        "auth_required"@,
    )
}

pub fn is_deterministic_reject(msg: &str) -> (b: bool)
    ensures
        b == deterministic(msg@),
{
    let m = chars_of(msg);
    holds(m.as_slice(), "not_member") || holds(m.as_slice(), "policy_deny") || holds(
        m.as_slice(),
        "auth_required",
    )
}

/// Classifies a failed dial by the message of the connection attempt; a timeout has none.
pub fn classify_dial(msg: Option<&str>) -> (f: DialFailure)
    ensures
        f == (match msg {
            Some(m) => if deterministic(m@) {
                DialFailure::Blocked
            } else {
                DialFailure::Transient
            },
            None => DialFailure::Transient,
        }),
{
    match msg {
        Some(m) => if is_deterministic_reject(m) {
            DialFailure::Blocked
        } else {
            DialFailure::Transient
        },
        None => DialFailure::Transient,
    }
}

/// Local endpoint is the canonical initiator when `local < peer`.
/// Prefer the connection opened by that initiator so both ends converge.
pub fn prefer_incoming(
    local: EndpointId,
    peer: EndpointId,
    existing_opened_by_us: bool,
    incoming_opened_by_us: bool,
) -> (b: bool)
    ensures
        b == prefers_incoming(
            initiates(local, peer),
            existing_opened_by_us,
            incoming_opened_by_us,
        ),
{
    let want = local.0 < peer.0 || (local.0 == peer.0 && local.1 < peer.1);
    existing_opened_by_us != want && incoming_opened_by_us == want
}

pub struct PeerSlot {
    pub conn: Option<u64>,
    /// True if the live connection was opened by our dial (not accepted).
    pub opened_by_us: bool,
    pub state: PeerConnState,
    pub last_activity: u64,
    pub peer_keep_alive: bool,
    pub buffer: VecDeque<Vec<u8>>,
    pub buffer_bytes: usize,
    /// A dial is in flight: its caller dials, others await the result.
    pub dialing: bool,
    /// Refused at this membership generation. A blocked peer stays blocked until the
    /// generation moves: at most one dial per episode.
    pub blocked_generation: Option<u64>,
    pub backoff_until: Option<u64>,
    pub backoff_step: u32,
}

/// Packets by their bytes.
pub open spec fn contents(b: Seq<Vec<u8>>) -> Seq<Seq<u8>> {
    Seq::new(b.len(), |i: int| b[i]@)
}

impl View for PeerSlot {
    type V = SlotView;

    open spec fn view(&self) -> SlotView {
        SlotView {
            conn: self.conn,
            opened_by_us: self.opened_by_us,
            state: self.state,
            last_activity: self.last_activity,
            peer_keep_alive: self.peer_keep_alive,
            buffer: contents(self.buffer@),
            dialing: self.dialing,
            blocked_generation: self.blocked_generation,
            backoff_until: self.backoff_until,
            backoff_step: self.backoff_step,
        }
    }
}

impl PeerSlot {
    /// The buffer is within its bounds, and a blocked peer has none.
    pub open spec fn wf(&self) -> bool {
        &&& self.buffer_bytes == total(self@.buffer)
        &&& self.buffer_bytes <= MAX_BUFFER_BYTES
        &&& self@.buffer.len() <= MAX_BUFFER_PACKETS
        &&& self.blocked_generation is Some ==> self@.buffer.len() == 0
    }

    pub fn new(now: u64) -> (s: Self)
        ensures
            s.wf(),
            s@ == no_slot(now),
    {
        let s = PeerSlot {
            conn: None,
            opened_by_us: false,
            state: PeerConnState::Idle,
            last_activity: now,
            peer_keep_alive: false,
            buffer: VecDeque::new(),
            buffer_bytes: 0,
            dialing: false,
            blocked_generation: None,
            backoff_until: None,
            backoff_step: 0,
        };
        assert(s@.buffer =~= Seq::<Seq<u8>>::empty());
        s
    }

    /// Keeps a packet for later, if it fits.
    pub fn push_buf(&mut self, packet: Vec<u8>) -> (b: bool)
        requires
            old(self).wf(),
            old(self).blocked_generation is None,
        ensures
            final(self).wf(),
            b == fits(old(self)@.buffer, packet@),
            final(self)@ == (if b {
                SlotView { buffer: old(self)@.buffer.push(packet@), ..old(self)@ }
            } else {
                old(self)@
            }),
    {
        let len: usize = packet.len();
        if self.buffer.len() >= MAX_BUFFER_PACKETS || len > MAX_BUFFER_BYTES - self.buffer_bytes {
            return false;
        }
        let ghost before = self@.buffer;
        let ghost p = packet@;
        self.buffer_bytes = self.buffer_bytes + len;
        self.buffer.push_back(packet);
        proof {
            assert(self@.buffer =~= before.push(p));
            assert(before.push(p).drop_last() =~= before);
        }
        true
    }

    /// Hands the buffered packets out.
    pub fn take_buf(&mut self) -> (v: VecDeque<Vec<u8>>)
        requires
            old(self).wf(),
        ensures
            final(self).wf(),
            contents(v@) == old(self)@.buffer,
            final(self)@ == (SlotView { buffer: Seq::empty(), ..old(self)@ }),
    {
        self.buffer_bytes = 0;
        let mut v: VecDeque<Vec<u8>> = VecDeque::new();
        v.append(&mut self.buffer);
        proof {
            assert(contents(v@) =~= old(self)@.buffer);
            assert(self@.buffer =~= Seq::<Seq<u8>>::empty());
        }
        v
    }

    /// Drops the buffered packets, and counts them.
    pub fn drop_buf(&mut self) -> (n: usize)
        requires
            old(self).wf(),
        ensures
            final(self).wf(),
            n == old(self)@.buffer.len(),
            final(self)@ == (SlotView { buffer: Seq::empty(), ..old(self)@ }),
    {
        let n: usize = self.buffer.len();
        self.buffer.clear();
        self.buffer_bytes = 0;
        assert(self@.buffer =~= Seq::<Seq<u8>>::empty());
        n
    }

    /// Pin the slot blocked; the count of dropped packets is handed out.
    fn pin(&mut self, generation: u64) -> (n: u64)
        requires
            old(self).wf(),
        ensures
            final(self).wf(),
            n == old(self)@.buffer.len(),
            final(self)@ == blocked_at(old(self)@, generation),
    {
        let n: usize = self.drop_buf();
        self.blocked_generation = Some(generation);
        self.backoff_until = None;
        self.state = PeerConnState::Blocked;
        self.dialing = false;
        n as u64
    }

    fn unblock(&mut self)
        requires
            old(self).wf(),
        ensures
            final(self).wf(),
            final(self)@ == unblocked(old(self)@),
            final(self).blocked_generation is None,
    {
        if self.blocked_generation.is_some() {
            self.blocked_generation = None;
            self.backoff_until = None;
            self.backoff_step = 0;
        }
    }

    fn is_pinned(&self, gate: &Gate) -> (b: bool)
        ensures
            b == pinned(self.blocked_generation, *gate),
    {
        match self.blocked_generation {
            Some(g) => g == gate.generation,
            None => false,
        }
    }

    fn live(&self, live: bool) -> (r: Option<u64>)
        ensures
            r == live_conn(self.conn, live),
    {
        if live {
            self.conn
        } else {
            None
        }
    }

    /// A connection is asked for.
    pub fn begin_get(&mut self, m: &mut PoolMetrics, gate: Gate, live: bool, now: u64) -> (r: GetStep)
        requires
            old(self).wf(),
        ensures
            final(self).wf(),
            (final(self)@, *final(m), r) == get_step(old(self)@, *old(m), gate, live, now),
    {
        let pin = self.is_pinned(&gate);
        if gate.allows {
            if let Some(conn) = self.live(live) {
                if !pin {
                    self.unblock();
                }
                self.last_activity = now;
                self.state = PeerConnState::Connected;
                return GetStep::Ready { conn };
            }
        }
        if pin {
            m.dials_suppressed = bump(m.dials_suppressed, 1);
            self.state = PeerConnState::Blocked;
            return GetStep::Denied { fail_waiters: false };
        }
        if !gate.allows {
            let fail_waiters = self.dialing;
            let dropped: u64 = self.pin(gate.generation);
            m.packets_dropped_blocked = bump(m.packets_dropped_blocked, dropped);
            return GetStep::Denied { fail_waiters };
        }
        self.unblock();
        self.conn = None;
        if let Some(until) = self.backoff_until {
            if now < until {
                m.dials_suppressed = bump(m.dials_suppressed, 1);
                self.state = PeerConnState::Backoff;
                return GetStep::Suppressed;
            }
        }
        if self.dialing {
            return GetStep::Wait;
        }
        self.dialing = true;
        self.state = PeerConnState::Dialing;
        GetStep::Dial
    }

    /// The dial that the caller waited for has ended.
    pub fn after_wait(&mut self, live: bool, outcome: WaitOutcome) -> (r: WaitStep)
        requires
            old(self).wf(),
        ensures
            final(self).wf(),
            (final(self)@, r) == wait_step(old(self)@, live, outcome),
    {
        match outcome {
            WaitOutcome::Got { conn } => WaitStep::Ready { conn },
            WaitOutcome::Failed => WaitStep::Failed,
            WaitOutcome::Lost => {
                if let Some(conn) = self.live(live) {
                    return WaitStep::Ready { conn };
                }
                if self.dialing {
                    return WaitStep::Retry;
                }
                self.dialing = true;
                self.state = PeerConnState::Dialing;
                WaitStep::Dial
            },
        }
    }

    /// The dial opened a connection. Hands out the packets that waited for it.
    pub fn dialed(
        &mut self,
        m: &mut PoolMetrics,
        new: u64,
        gate: Gate,
        live: bool,
        local: EndpointId,
        peer: EndpointId,
        now: u64,
    ) -> (r: (DialStep, VecDeque<Vec<u8>>))
        requires
            old(self).wf(),
        ensures
            final(self).wf(),
            (final(self)@, *final(m), r.0, contents(r.1@)) == dialed_step(
                old(self)@,
                *old(m),
                new,
                gate,
                live,
                initiates(local, peer),
                now,
            ),
    {
        if !gate.allows || (self.is_pinned(&gate) && self.live(live).is_none()) {
            let fail_waiters = self.dialing;
            let dropped: u64 = self.pin(gate.generation);
            m.packets_dropped_blocked = bump(m.packets_dropped_blocked, dropped);
            let none: VecDeque<Vec<u8>> = VecDeque::new();
            assert(contents(none@) =~= Seq::<Seq<u8>>::empty());
            return (DialStep::Refused { fail_waiters }, none);
        }
        self.dialing = false;
        let flush = self.take_buf();
        match self.live(live) {
            Some(existing) => {
                if prefer_incoming(local, peer, self.opened_by_us, true) {
                    self.conn = Some(new);
                    self.opened_by_us = true;
                    self.state = PeerConnState::Connected;
                    self.last_activity = now;
                    (DialStep::Use { conn: new, close: Some(existing) }, flush)
                } else {
                    (DialStep::Use { conn: existing, close: Some(new) }, flush)
                }
            },
            None => {
                self.conn = Some(new);
                self.opened_by_us = true;
                self.state = PeerConnState::Connected;
                self.last_activity = now;
                (DialStep::Use { conn: new, close: None }, flush)
            },
        }
    }

    /// The dial failed.
    pub fn dial_failed(
        &mut self,
        m: &mut PoolMetrics,
        failure: DialFailure,
        generation: u64,
        now: u64,
        random: u64,
    )
        requires
            old(self).wf(),
        ensures
            final(self).wf(),
            (final(self)@, *final(m)) == failed_step(
                old(self)@,
                *old(m),
                failure,
                generation,
                now,
                random,
            ),
    {
        m.reconnect_fail = bump(m.reconnect_fail, 1);
        match failure {
            DialFailure::Blocked => {
                let dropped: u64 = self.pin(generation);
                m.packets_dropped_blocked = bump(m.packets_dropped_blocked, dropped);
            },
            DialFailure::Transient => {
                let dropped: usize = self.drop_buf();
                m.packets_dropped_timeout = bump(m.packets_dropped_timeout, dropped as u64);
                let wait: u64 = delay_after(self.backoff_step, random);
                self.backoff_step = self.backoff_step.saturating_add(1);
                self.backoff_until = Some(now.saturating_add(wait * 1_000_000));
                self.state = PeerConnState::Backoff;
                self.dialing = false;
            },
        }
    }

    /// A packet is to be sent. Where it goes out at once, it is handed back.
    pub fn begin_send(
        &mut self,
        m: &mut PoolMetrics,
        packet: Vec<u8>,
        gate: Gate,
        live: bool,
        now: u64,
    ) -> (r: (SendStep, Option<Vec<u8>>))
        requires
            old(self).wf(),
        ensures
            final(self).wf(),
            (final(self)@, *final(m), r.0) == send_step(
                old(self)@,
                *old(m),
                packet@,
                gate,
                live,
                now,
            ),
            r.1 is Some == r.0 is Send,
            r.1 matches Some(p) ==> p == packet,
    {
        if let Some(conn) = self.live(live) {
            self.last_activity = now;
            return (SendStep::Send { conn }, Some(packet));
        }
        if self.conn.is_some() {
            self.conn = None;
            self.state = PeerConnState::Idle;
        }
        if self.is_pinned(&gate) {
            m.packets_dropped_blocked = bump(m.packets_dropped_blocked, 1);
            self.state = PeerConnState::Blocked;
            return (SendStep::Denied { fail_waiters: false }, None);
        }
        if !gate.allows {
            let fail_waiters = self.dialing;
            let dropped: u64 = self.pin(gate.generation);
            m.packets_dropped_blocked = bump(m.packets_dropped_blocked, dropped + 1);
            return (SendStep::Denied { fail_waiters }, None);
        }
        self.unblock();
        if !self.push_buf(packet) {
            m.packets_dropped_timeout = bump(m.packets_dropped_timeout, 1);
            return (SendStep::Full, None);
        }
        m.packets_buffered = bump(m.packets_buffered, 1);
        if matches!(self.state, PeerConnState::Dialing) || matches!(
            self.state,
            PeerConnState::Backoff
        ) || self.dialing {
            return (SendStep::Buffered, None);
        }
        self.state = PeerConnState::Dialing;
        (SendStep::BufferedDial, None)
    }

    /// A connection was accepted. Tells whether it is kept, whether it is news, and which
    /// connection is to be closed for it.
    pub fn adopt(
        &mut self,
        new: u64,
        live: bool,
        local: EndpointId,
        peer: EndpointId,
        now: u64,
    ) -> (r: (bool, bool, Option<u64>))
        requires
            old(self).wf(),
        ensures
            final(self).wf(),
            (final(self)@, r) == adopt_step(old(self)@, new, live, initiates(local, peer), now),
    {
        let mut close: Option<u64> = None;
        if let Some(existing) = self.live(live) {
            if existing == new {
                self.last_activity = now;
                return (true, false, None);
            }
            if !prefer_incoming(local, peer, self.opened_by_us, false) {
                return (false, false, None);
            }
            close = Some(existing);
        }
        self.conn = Some(new);
        self.opened_by_us = false;
        self.state = PeerConnState::Connected;
        self.last_activity = now;
        (true, true, close)
    }

    /// Membership or policy changed. Hands out the connection to close.
    pub fn reconcile(&mut self, m: &mut PoolMetrics, gate: Gate, live: bool) -> (r: Option<u64>)
        requires
            old(self).wf(),
        ensures
            final(self).wf(),
            (final(self)@, *final(m), r) == reconcile_step(old(self)@, *old(m), gate, live),
    {
        if !gate.allows {
            let close = self.conn;
            let dropped: u64 = self.pin(gate.generation);
            self.conn = None;
            m.packets_dropped_blocked = bump(m.packets_dropped_blocked, dropped);
            return close;
        }
        if self.blocked_generation.is_some() && !self.is_pinned(&gate) {
            self.unblock();
            self.state = if self.live(live).is_some() {
                PeerConnState::Connected
            } else {
                PeerConnState::Idle
            };
        }
        None
    }

    /// The peer is revoked. Hands out the connection to close.
    pub fn revoke(&mut self, m: &mut PoolMetrics, generation: u64) -> (r: Option<u64>)
        requires
            old(self).wf(),
        ensures
            final(self).wf(),
            (final(self)@, *final(m), r) == revoke_step(old(self)@, *old(m), generation),
    {
        let close = self.conn;
        let dropped: u64 = self.pin(generation);
        self.conn = None;
        m.packets_dropped_blocked = bump(m.packets_dropped_blocked, dropped);
        close
    }

    /// The data plane goes down. Hands out the connection to close.
    pub fn close(&mut self) -> (r: Option<u64>)
        requires
            old(self).wf(),
        ensures
            final(self).wf(),
            (final(self)@, r) == close_step(old(self)@),
    {
        let close = self.conn;
        self.drop_buf();
        self.conn = None;
        self.opened_by_us = false;
        self.state = PeerConnState::Idle;
        self.blocked_generation = None;
        self.backoff_until = None;
        self.backoff_step = 0;
        close
    }

    /// The sweeper looks at the peer. Hands out the connection to close.
    pub fn sweep(&mut self, kept: bool, timeout: u64, now: u64) -> (r: Option<u64>)
        requires
            old(self).wf(),
        ensures
            final(self).wf(),
            (final(self)@, r) == idle_step(old(self)@, kept, timeout, now),
    {
        if kept || self.peer_keep_alive || !matches!(self.state, PeerConnState::Connected)
            || now.saturating_sub(self.last_activity) < timeout {
            return None;
        }
        let close = self.conn;
        self.conn = None;
        self.state = PeerConnState::Idle;
        close
    }

    /// Traffic was seen.
    pub fn touch(&mut self, live: bool, now: u64)
        requires
            old(self).wf(),
        ensures
            final(self).wf(),
            final(self)@ == touch_step(old(self)@, live, now),
    {
        self.last_activity = now;
        if self.live(live).is_some() {
            self.state = PeerConnState::Connected;
        }
    }
}

} // verus!
