//! One peer's connection state on a secondary protocol.

use super::model::{
    extra_blocked_at, extra_close_step, extra_dialed_step, extra_failed_step, extra_get_step,
    extra_reconcile_step, extra_unblocked, extra_wait_step, live_conn, no_extra, pinned,
    DialFailure, DialStep, ExtraSlot, Gate, GetStep, PoolMetrics, WaitOutcome, WaitStep,
};
use super::slot::{bump, delay_after};
use vstd::prelude::*;

verus! {

impl ExtraSlot {
    pub fn new() -> (s: Self)
        ensures
            s == no_extra(),
    {
        ExtraSlot {
            conn: None,
            dialing: false,
            blocked_generation: None,
            backoff_until: None,
            backoff_step: 0,
        }
    }

    fn is_pinned(&self, gate: &Gate) -> (b: bool)
        ensures
            b == pinned(self.blocked_generation, *gate),
    {
        match self.blocked_generation {
            Some(g) => g == gate.generation,
            None => false,
        }
    }

    fn pin(&mut self, generation: u64)
        ensures
            *final(self) == extra_blocked_at(*old(self), generation),
    {
        self.blocked_generation = Some(generation);
        self.backoff_until = None;
        self.dialing = false;
    }

    fn unblock(&mut self)
        ensures
            *final(self) == extra_unblocked(*old(self)),
    {
        if self.blocked_generation.is_some() {
            self.blocked_generation = None;
            self.backoff_until = None;
            self.backoff_step = 0;
        }
    }

    fn live(&self, live: bool) -> (r: Option<u64>)
        ensures
            r == live_conn(self.conn, live),
    {
        if live {
            self.conn
        } else {
            None
        }
    }

    /// A connection is asked for.
    pub fn begin_get(&mut self, m: &mut PoolMetrics, gate: Gate, live: bool, now: u64) -> (r: GetStep)
        ensures
            (*final(self), *final(m), r) == extra_get_step(*old(self), *old(m), gate, live, now),
    {
        let pin = self.is_pinned(&gate);
        if gate.allows {
            if let Some(conn) = self.live(live) {
                if !pin {
                    self.unblock();
                }
                return GetStep::Ready { conn };
            }
        }
        if pin {
            m.dials_suppressed = bump(m.dials_suppressed, 1);
            return GetStep::Denied { fail_waiters: false };
        }
        if !gate.allows {
            let fail_waiters = self.dialing;
            self.pin(gate.generation);
            return GetStep::Denied { fail_waiters };
        }
        self.unblock();
        self.conn = None;
        if let Some(until) = self.backoff_until {
            if now < until {
                m.dials_suppressed = bump(m.dials_suppressed, 1);
                return GetStep::Suppressed;
            }
        }
        if self.dialing {
            return GetStep::Wait;
        }
        self.dialing = true;
        GetStep::Dial
    }

    /// The dial that the caller waited for has ended.
    pub fn after_wait(&mut self, live: bool, outcome: WaitOutcome) -> (r: WaitStep)
        ensures
            (*final(self), r) == extra_wait_step(*old(self), live, outcome),
    {
        match outcome {
            WaitOutcome::Got { conn } => WaitStep::Ready { conn },
            WaitOutcome::Failed => WaitStep::Failed,
            WaitOutcome::Lost => {
                if let Some(conn) = self.live(live) {
                    return WaitStep::Ready { conn };
                }
                if self.dialing {
                    return WaitStep::Retry;
                }
                self.dialing = true;
                WaitStep::Dial
            },
        }
    }

    /// The dial opened a connection.
    pub fn dialed(&mut self, new: u64, gate: Gate) -> (r: DialStep)
        ensures
            (*final(self), r) == extra_dialed_step(*old(self), new, gate),
    {
        if !gate.allows || self.is_pinned(&gate) {
            let fail_waiters = self.dialing;
            self.pin(gate.generation);
            return DialStep::Refused { fail_waiters };
        }
        self.conn = Some(new);
        self.backoff_until = None;
        self.backoff_step = 0;
        self.dialing = false;
        DialStep::Use { conn: new, close: None }
    }

    /// The dial failed.
    pub fn dial_failed(
        &mut self,
        m: &mut PoolMetrics,
        failure: DialFailure,
        generation: u64,
        now: u64,
        random: u64,
    )
        ensures
            (*final(self), *final(m)) == extra_failed_step(
                *old(self),
                *old(m),
                failure,
                generation,
                now,
                random,
            ),
    {
        m.reconnect_fail = bump(m.reconnect_fail, 1);
        match failure {
            DialFailure::Blocked => {
                self.pin(generation);
            },
            DialFailure::Transient => {
                let wait: u64 = delay_after(self.backoff_step, random);
                self.backoff_step = self.backoff_step.saturating_add(1);
                self.backoff_until = Some(now.saturating_add(wait * 1_000_000));
                self.dialing = false;
            },
        }
    }

    /// Membership or policy changed. Hands out the connection to close.
    pub fn reconcile(&mut self, gate: Gate) -> (r: Option<u64>)
        ensures
            (*final(self), r) == extra_reconcile_step(*old(self), gate),
    {
        if !gate.allows {
            let close = self.conn;
            self.pin(gate.generation);
            self.conn = None;
            return close;
        }
        if self.blocked_generation.is_some() && !self.is_pinned(&gate) {
            self.unblock();
        }
        None
    }

    /// The data plane goes down. Hands out the connection to close.
    pub fn close(&mut self) -> (r: Option<u64>)
        ensures
            (*final(self), r) == extra_close_step(*old(self)),
    {
        let close = self.conn;
        self.conn = None;
        self.blocked_generation = None;
        self.backoff_until = None;
        self.backoff_step = 0;
        close
    }
}

} // verus!
