//! When a standing queue is brought down, and when a packet is too old to send.

use super::codel::{control_step, is_step, observe, CodelState};
use super::flow::{
    drain, expired, expired_run, lemma_expired_run, old_visit, sparse_visit, FlowState, SparseVisit,
};
use super::laws::{lemma_step_bound, lemma_step_exists};
use crate::packet::LogicalPacket;
use vstd::prelude::*;

verus! {

/// A head that has been above target for long enough is dropped as soon as a drop is due,
/// and only then. The first drop of an episode comes at once. After the `n`th drop the next
/// one is due `interval / sqrt(n)` later, to the nearest nanosecond.
pub proof fn law_due_drop_is_made(
    c: CodelState,
    sojourn: int,
    now: u64,
    target: u64,
    interval: u64,
    since: u128,
)
    requires
        c.first_above_time == Some(since),
        since <= now,
        sojourn >= target,
        interval > 0,
        c.count < u64::MAX,
    ensures
        ({
            let (d, dropped) = observe(c, sojourn, now, target, interval);
            let due = !c.dropping || c.drop_next <= now;
            &&& dropped == due
            &&& !due ==> d == c
            &&& due ==> {
                let n = if c.dropping {
                    c.count + 1
                } else {
                    1
                };
                let s = d.drop_next - now;
                &&& d.dropping
                &&& d.count == n
                &&& d.first_above_time == Some(since)
                &&& 0 <= s <= interval
                &&& s > 0 ==> (2 * s - 1) * (2 * s - 1) * n <= 4 * interval * interval
                &&& 4 * interval * interval < (2 * s + 1) * (2 * s + 1) * n
            }
        }),
{
    let n = if c.dropping {
        c.count + 1
    } else {
        1
    };
    lemma_step_exists(interval as int, n);
    lemma_step_bound(interval as int, n);
    let s = control_step(interval as int, n);
    assert(is_step(s, interval as int, n));
    assert((now + s) as u128 == now + s);
}

/// No head is dropped that is younger than the target, nor before the queue has been above
/// it for a whole interval. A young head ends the wait; an old one starts it.
pub proof fn law_no_drop_without_standing_queue(
    c: CodelState,
    sojourn: int,
    now: u64,
    target: u64,
    interval: u64,
)
    ensures
        ({
            let (d, dropped) = observe(c, sojourn, now, target, interval);
            &&& sojourn < target ==> !dropped && d.first_above_time is None
            &&& sojourn >= target && c.first_above_time is None ==> !dropped
                && d.first_above_time == Some((now + interval) as u128)
            &&& sojourn >= target && c.first_above_time is Some && now < c.first_above_time->0
                ==> !dropped && d == c
            &&& !dropped ==> d.drop_next == c.drop_next || d.drop_next == now
        }),
{
}

/// A queue that stands: the state after heads at or above the target were seen at the given
/// times, and how many of them were dropped.
pub open spec fn stood(
    c: CodelState,
    times: Seq<u64>,
    target: u64,
    interval: u64,
) -> (CodelState, nat)
    decreases times.len(),
{
    if times.len() == 0 {
        (c, 0)
    } else {
        let (b, n) = stood(c, times.drop_last(), target, interval);
        let (d, dropped) = observe(b, target as int, times.last(), target, interval);
        (
            d,
            n + if dropped {
                1nat
            } else {
                0
            },
        )
    }
}

/// A standing queue is brought down: while it stands, a visit in every interval drops a
/// head each, without end.
pub proof fn law_standing_queue_keeps_losing_heads(
    c: CodelState,
    times: Seq<u64>,
    target: u64,
    interval: u64,
    since: u128,
)
    requires
        interval > 0,
        c.first_above_time == Some(since),
        times.len() > 0 ==> since <= times[0] && (c.dropping ==> c.drop_next <= times[0]),
        c.count + times.len() < u64::MAX,
        forall|i: int|
            #![trigger times[i]]
            0 < i < times.len() ==> times[i - 1] + interval <= times[i],
    ensures
        ({
            let (d, n) = stood(c, times, target, interval);
            &&& n == times.len()
            &&& times.len() > 0 ==> d.dropping && d.drop_next <= times.last() + interval
                && d.first_above_time == Some(since)
            &&& d.count <= c.count + times.len()
            &&& times.len() > 0 && !c.dropping ==> d.count == times.len()
            &&& c.dropping ==> d.count == c.count + times.len()
        }),
    decreases times.len(),
{
    if times.len() > 0 {
        let b = times.drop_last();
        assert forall|i: int| #![trigger b[i]] 0 < i < b.len() implies b[i - 1] + interval
            <= b[i] by {
            assert(times[i - 1] + interval <= times[i]);
        }
        law_standing_queue_keeps_losing_heads(c, b, target, interval, since);
        let d = stood(c, b, target, interval).0;
        if b.len() > 0 {
            assert(b.last() == times[times.len() - 2]);
            lemma_ordered(times, interval, times.len() - 1);
            assert(times[times.len() - 1 - 1] + interval <= times[times.len() - 1]);
        }
        law_due_drop_is_made(d, target as int, times.last(), target, interval, since);
    }
}

proof fn lemma_ordered(times: Seq<u64>, interval: u64, i: int)
    requires
        0 <= i < times.len(),
        forall|i: int|
            #![trigger times[i]]
            0 < i < times.len() ==> times[i - 1] + interval <= times[i],
    ensures
        times[0] <= times[i],
    decreases i,
{
    if i > 0 {
        lemma_ordered(times, interval, i - 1);
        assert(times[i - 1] + interval <= times[i]);
    }
}

/// A visit to a backlogged flow whose head has stood for too long takes that head off the
/// queue, sends nothing and grants nothing; the packets behind it stay as they are.
pub proof fn law_visit_drops_standing_head(
    q: FlowState,
    quantum: int,
    target: u64,
    interval: u64,
    now: u64,
    since: u128,
)
    requires
        q.packets.len() > 0,
        q.packets[0].enqueued_at <= now,
        target <= now - q.packets[0].enqueued_at <= 1_000_000_000,
        q.codel.first_above_time == Some(since),
        since <= now,
        !q.codel.dropping || q.codel.drop_next <= now,
    ensures
        ({
            let v = old_visit(q, quantum, target, interval, now);
            &&& v.codel == 1
            &&& v.expired == 0
            &&& v.sent.len() == 0
            &&& v.q.packets == q.packets.drop_first()
            &&& v.q.deficit == q.deficit
        }),
{
    assert(q.packets.skip(0) =~= q.packets);
}

/// A visit that finds a young head ends the episode: the next drop, if there is one, is the
/// first of a new one.
pub proof fn law_young_head_ends_the_episode(
    q: FlowState,
    quantum: int,
    target: u64,
    interval: u64,
    now: u64,
)
    requires
        q.packets.len() > 0,
        target > 0,
        now < q.packets[0].enqueued_at + target,
        now <= q.packets[0].enqueued_at + 1_000_000_000,
    ensures
        ({
            let v = old_visit(q, quantum, target, interval, now);
            &&& v.codel == 0
            &&& v.expired + v.sent.len() + v.q.packets.len() == q.packets.len()
            &&& v.q.codel.first_above_time is None
            &&& !v.q.codel.dropping
            &&& v.q.codel.count == 0
        }),
{
    assert(q.packets.skip(0) =~= q.packets);
    super::flow::lemma_drain(q.packets, q.deficit + quantum, now);
}

proof fn lemma_drain_fresh(s: Seq<LogicalPacket>, deficit: int, now: u64)
    ensures
        forall|i: int|
            0 <= i < drain(s, deficit, now).sent.len() ==> now <= (#[trigger] drain(
                s,
                deficit,
                now,
            ).sent[i]).enqueued_at + 1_000_000_000,
    decreases s.len(),
{
    if s.len() > 0 {
        let t = s.drop_first();
        if expired(s[0], now) {
            lemma_drain_fresh(t, deficit, now);
            assert(drain(s, deficit, now).sent == drain(t, deficit, now).sent);
        } else if s[0].size() <= deficit {
            lemma_drain_fresh(t, deficit - s[0].size(), now);
            let d = drain(s, deficit, now);
            let e = drain(t, deficit - s[0].size(), now);
            assert forall|i: int| 0 <= i < d.sent.len() implies now <= (
            #[trigger] d.sent[i]).enqueued_at + 1_000_000_000 by {
                if i > 0 {
                    assert(d.sent[i] == e.sent[i - 1]);
                }
            }
        }
    }
}

/// Nothing is sent that has been queued for more than a second, by no visit of either kind.
pub proof fn law_nothing_stale_is_sent(
    q: FlowState,
    quantum: int,
    target: u64,
    interval: u64,
    now: u64,
)
    ensures
        forall|i: int|
            0 <= i < old_visit(q, quantum, target, interval, now).sent.len() ==> now <= (
            #[trigger] old_visit(q, quantum, target, interval, now).sent[i]).enqueued_at
                + 1_000_000_000,
        sparse_visit(q, quantum, now).0 matches SparseVisit::Sent(_, p) ==> now <= p.enqueued_at
            + 1_000_000_000,
{
    lemma_expired_run(q.packets, now);
    let live = q.packets.skip(expired_run(q.packets, now) as int);
    if live.len() > 0 {
        lemma_drain_fresh(live, q.deficit + quantum, now);
    }
}

/// A packet that has been queued for a second or less is never taken for one past the
/// ceiling: what a visit discards as such was older.
pub proof fn law_only_stale_packets_expire(
    q: FlowState,
    quantum: int,
    target: u64,
    interval: u64,
    now: u64,
)
    requires
        forall|i: int|
            0 <= i < q.packets.len() ==> now <= (#[trigger] q.packets[i]).enqueued_at
                + 1_000_000_000,
    ensures
        old_visit(q, quantum, target, interval, now).expired == 0,
        sparse_visit(q, quantum, now).1 == 0,
{
    if q.packets.len() > 0 {
        assert(now <= q.packets[0].enqueued_at + 1_000_000_000);
    }
    assert(expired_run(q.packets, now) == 0);
    assert(q.packets.skip(0) =~= q.packets);
    lemma_drain_keeps(q.packets, q.deficit + quantum, now);
}

proof fn lemma_drain_keeps(s: Seq<LogicalPacket>, deficit: int, now: u64)
    requires
        forall|i: int|
            0 <= i < s.len() ==> now <= (#[trigger] s[i]).enqueued_at + 1_000_000_000,
    ensures
        drain(s, deficit, now).expired == 0,
    decreases s.len(),
{
    if s.len() > 0 {
        let t = s.drop_first();
        assert(now <= s[0].enqueued_at + 1_000_000_000);
        assert forall|i: int| 0 <= i < t.len() implies now <= (#[trigger] t[i]).enqueued_at
            + 1_000_000_000 by {
            assert(t[i] == s[i + 1]);
        }
        if s[0].size() <= deficit {
            lemma_drain_keeps(t, deficit - s[0].size(), now);
        }
    }
}

/// The packets at the front that are older than a second are counted up to the first that is
/// not.
pub proof fn law_stale_heads_are_counted(s: Seq<LogicalPacket>, now: u64, k: int)
    requires
        0 <= k <= s.len(),
        forall|i: int| 0 <= i < k ==> now > (#[trigger] s[i]).enqueued_at + 1_000_000_000,
        k < s.len() ==> now <= s[k].enqueued_at + 1_000_000_000,
    ensures
        expired_run(s, now) == k,
    decreases s.len(),
{
    if k > 0 {
        let t = s.drop_first();
        assert(now > s[0].enqueued_at + 1_000_000_000);
        assert forall|i: int| 0 <= i < k - 1 implies now > (#[trigger] t[i]).enqueued_at
            + 1_000_000_000 by {
            assert(t[i] == s[i + 1]);
        }
        law_stale_heads_are_counted(t, now, k - 1);
    }
}

} // verus!
