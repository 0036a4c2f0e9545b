//! The per-flow standing-queue control law (CoDel, RFC 8290 section 5.2).
//!
//! Times are nanoseconds of one monotonic clock. Deadlines are kept in a wider
//! type than the clock, so that adding an interval to it never overflows.

use vstd::prelude::*;

verus! {

/// Per-flow CoDel state.
#[derive(Clone, Copy, Debug)]
pub struct CodelState {
    /// When the current above-target episode counts as standing (`None`: below target).
    pub first_above_time: Option<u128>,
    /// In dropping state (sustained standing queue).
    pub dropping: bool,
    /// Next scheduled drop time while dropping.
    pub drop_next: u128,
    /// Drops in the current episode (controls the drop frequency).
    pub count: u64,
}

/// `s` is `interval / sqrt(count)`, rounded to the nearest whole number.
pub open spec fn is_step(s: int, interval: int, count: int) -> bool {
    &&& s >= 0
    &&& s > 0 ==> (2 * s - 1) * (2 * s - 1) * count <= 4 * interval * interval
    &&& 4 * interval * interval < (2 * s + 1) * (2 * s + 1) * count
}

/// The delay to the next drop after `count` drops: `interval / sqrt(count)`,
/// rounded to the nearest nanosecond.
pub open spec fn control_step(interval: int, count: int) -> int {
    choose|s: int| is_step(s, interval, count)
}

proof fn lemma_step_least(a: int, b: int, interval: int, count: int)
    requires
        is_step(a, interval, count),
        is_step(b, interval, count),
        count >= 1,
    ensures
        b <= a,
{
    if a < b {
        let x = 2 * a + 1;
        let y = 2 * b - 1;
        assert(x * x * count <= y * y * count) by (nonlinear_arith)
            requires
                0 <= x <= y,
                count >= 1,
        ;
    }
}

/// The step of the control law: see [`control_step`].
pub fn step_after(interval: u64, count: u64) -> (s: u64)
    requires
        interval < 0x8000_0000_0000_0000,
        count >= 1,
    ensures
        s == control_step(interval as int, count as int),
        is_step(s as int, interval as int, count as int),
        s <= interval,
{
    let i: u128 = interval as u128;
    let c: u128 = count as u128;
    assert(4 * (i * i) <= 0xffff_ffff_ffff_ffff_ffff_ffff_ffff_ffff && i * i <= 4 * (i * i)) by (nonlinear_arith)
        requires
            i < 0x8000_0000_0000_0000,
    ;
    let square: u128 = 4 * (i * i);
    let q: u128 = square / c;
    let mut lo: u128 = 0;
    let mut hi: u128 = 2 * i + 1;
    assert(q < hi * hi) by (nonlinear_arith)
        requires
            q == square / c,
            c >= 1,
            square == 4 * (i * i),
            hi == 2 * i + 1,
    ;
    while hi - lo > 1
        invariant
            lo < hi <= 2 * i + 1,
            i < 0x8000_0000_0000_0000,
            lo * lo <= q < hi * hi,
        decreases hi - lo,
    {
        let mid: u128 = lo + (hi - lo) / 2;
        assert(mid * mid <= 0xffff_ffff_ffff_ffff_ffff_ffff_ffff_ffff) by (nonlinear_arith)
            requires
                mid <= 0xffff_ffff_ffff_ffff,
        ;
        if mid * mid <= q {
            lo = mid;
        } else {
            hi = mid;
        }
    }
    let s: u128 = (lo + 1) / 2;
    proof {
        let t = lo as int;
        assert(hi == lo + 1);
        assert(t * t * c <= square) by (nonlinear_arith)
            requires
                t * t <= q,
                q == square as int / c as int,
                c >= 1,
                t >= 0,
        ;
        assert((t + 1) * (t + 1) * c > square) by (nonlinear_arith)
            requires
                (t + 1) * (t + 1) >= q + 1,
                q == square as int / c as int,
                c >= 1,
        ;
        let a = 2 * s as int - 1;
        let b = 2 * s as int + 1;
        if s > 0 {
            assert(a * a * c <= t * t * c) by (nonlinear_arith)
                requires
                    0 <= a <= t,
                    c >= 1,
            ;
        }
        assert(b * b * c >= (t + 1) * (t + 1) * c) by (nonlinear_arith)
            requires
                b >= t + 1,
                t >= 0,
                c >= 1,
        ;
        assert(4 * interval as int * interval as int == square) by (nonlinear_arith)
            requires
                square == 4 * (i * i),
                i == interval,
        ;
        assert(is_step(s as int, interval as int, count as int));
        let r = control_step(interval as int, count as int);
        lemma_step_least(s as int, r, interval as int, count as int);
        lemma_step_least(r, s as int, interval as int, count as int);
        assert(t <= 2 * i) by (nonlinear_arith)
            requires
                t * t <= q,
                q <= 4 * (i * i),
                t >= 0,
                i >= 0,
        ;
    }
    s as u64
}

/// The state after observing a head of the given age, and whether that head is
/// to be dropped.
pub open spec fn observe(
    c: CodelState,
    sojourn: int,
    now: u64,
    target: u64,
    interval: u64,
) -> (CodelState, bool) {
    if sojourn < target {
        (CodelState { first_above_time: None, ..c }, false)
    } else {
        match c.first_above_time {
            None => (
                CodelState { first_above_time: Some((now + interval) as u128), ..c },
                false,
            ),
            Some(t) => if now < t {
                (c, false)
            } else {
                let c1 = if c.dropping {
                    c
                } else {
                    CodelState { dropping: true, drop_next: now as u128, count: 0, ..c }
                };
                if now < c1.drop_next {
                    (c1, false)
                } else {
                    let n = c1.count + 1;
                    (
                        CodelState {
                            count: n as u64,
                            drop_next: (now + control_step(interval as int, n)) as u128,
                            ..c1
                        },
                        true,
                    )
                }
            },
        }
    }
}

impl CodelState {
    pub open spec fn fresh() -> CodelState {
        CodelState { first_above_time: None, dropping: false, drop_next: 0, count: 0 }
    }

    pub fn new() -> (c: Self)
        ensures
            c == CodelState::fresh(),
    {
        CodelState { first_above_time: None, dropping: false, drop_next: 0, count: 0 }
    }

    /// Observes the age of the head. Returns whether to drop it.
    pub fn observe(&mut self, sojourn: u64, now: u64, target: u64, interval: u64) -> (dropped: bool)
        requires
            interval < 0x8000_0000_0000_0000,
            old(self).count < u64::MAX,
        ensures
            (*final(self), dropped) == observe(*old(self), sojourn as int, now, target, interval),
            final(self).count <= old(self).count + 1,
            !dropped ==> final(self).count <= old(self).count,
    {
        if sojourn < target {
            self.first_above_time = None;
            return false;
        }
        match self.first_above_time {
            None => {
                self.first_above_time = Some(now as u128 + interval as u128);
                false
            },
            Some(t) => {
                if (now as u128) < t {
                    return false;
                }
                if !self.dropping {
                    // The first drop is immediate on entering the dropping state.
                    self.dropping = true;
                    self.drop_next = now as u128;
                    self.count = 0;
                }
                if (now as u128) < self.drop_next {
                    return false;
                }
                self.count = self.count + 1;
                let step: u64 = step_after(interval, self.count);
                self.drop_next = now as u128 + step as u128;
                true
            },
        }
    }
}

} // verus!
