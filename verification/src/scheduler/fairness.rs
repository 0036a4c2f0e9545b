//! Byte fairness of the DRR rotation.

use super::flow::{drain, expired, expired_run, lemma_expired_run, old_visit, FlowState};
use super::model::{old_turn, SchedState};
use crate::packet::{lemma_total_push, lemma_total_split, total_size, LogicalPacket};
use vstd::prelude::*;

verus! {

/// A visit of the rotation to a flow, and the framing bytes that were charged to the flow
/// for what it sent.
pub struct Turn {
    pub q: FlowState,
    pub now: u64,
    pub charged: int,
}

/// The flow after a visit, before anything is charged.
pub open spec fn visited(t: Turn, quantum: int, target: u64, interval: u64) -> FlowState {
    old_visit(t.q, quantum, target, interval, t.now).q
}

/// The bytes that a turn put on the wire.
pub open spec fn wire_bytes(t: Turn, quantum: int, target: u64, interval: u64) -> int {
    total_size(old_visit(t.q, quantum, target, interval, t.now).sent) + t.charged
}

/// The visits of the rotation to a flow that stays backlogged and loses no packet to
/// CoDel. Between two visits packets may arrive, and framing is charged.
pub open spec fn backlogged(run: Seq<Turn>, quantum: int, target: u64, interval: u64) -> bool {
    &&& forall|i: int|
        #![trigger run[i]]
        0 <= i < run.len() ==> old_visit(run[i].q, quantum, target, interval, run[i].now).codel == 0
            && visited(run[i], quantum, target, interval).packets.len() > 0
    &&& forall|i: int|
        #![trigger run[i + 1]]
        0 <= i < run.len() - 1 ==> run[i + 1].q.deficit == visited(
            run[i],
            quantum,
            target,
            interval,
        ).deficit - run[i].charged
}

/// The bytes of all the turns.
pub open spec fn all_bytes(run: Seq<Turn>, quantum: int, target: u64, interval: u64) -> int
    decreases run.len(),
{
    if run.len() == 0 {
        0
    } else {
        all_bytes(run.drop_last(), quantum, target, interval) + wire_bytes(
            run.last(),
            quantum,
            target,
            interval,
        )
    }
}

/// No packet is larger than `most`, and no turn is charged more than `framing`.
pub open spec fn bounded(run: Seq<Turn>, most: int, framing: int) -> bool {
    forall|i: int|
        #![trigger run[i]]
        0 <= i < run.len() ==> 0 <= run[i].charged <= framing && forall|j: int|
            0 <= j < run[i].q.packets.len() ==> (#[trigger] run[i].q.packets[j]).size() <= most
}

proof fn lemma_drain(s: Seq<LogicalPacket>, deficit: int, now: u64)
    ensures
        ({
            let d = drain(s, deficit, now);
            &&& total_size(d.sent) + d.deficit == deficit
            &&& d.rest.len() <= s.len()
            &&& d.rest == s.skip(s.len() - d.rest.len())
            &&& d.rest.len() > 0 ==> d.deficit < d.rest[0].size()
            &&& deficit >= 0 ==> d.deficit >= 0
        }),
    decreases s.len(),
{
    if s.len() == 0 {
        assert(s.skip(0) =~= s);
    } else {
        let r = s.drop_first();
        let d = drain(s, deficit, now);
        if expired(s[0], now) {
            lemma_drain(r, deficit, now);
            assert(r.skip(r.len() - d.rest.len()) =~= s.skip(s.len() - d.rest.len()));
        } else if s[0].size() > deficit {
            assert(s.skip(0) =~= s);
        } else {
            let e = drain(r, deficit - s[0].size(), now);
            lemma_drain(r, deficit - s[0].size(), now);
            assert(r.skip(r.len() - d.rest.len()) =~= s.skip(s.len() - d.rest.len()));
            lemma_total_split(seq![s[0]], e.sent);
            lemma_total_push(Seq::empty(), s[0]);
            assert(Seq::<LogicalPacket>::empty().push(s[0]) =~= seq![s[0]]);
        }
    }
}

/// Each visit grants one quantum and serves every affordable head: what a flow was granted
/// it has either sent or keeps, and what it keeps does not pay for its next packet.
pub proof fn law_visit_spends_its_credit(
    q: FlowState,
    quantum: int,
    target: u64,
    interval: u64,
    now: u64,
)
    requires
        old_visit(q, quantum, target, interval, now).codel == 0,
        old_visit(q, quantum, target, interval, now).q.packets.len() > 0,
    ensures
        ({
            let v = old_visit(q, quantum, target, interval, now);
            &&& total_size(v.sent) + v.q.deficit == q.deficit + quantum
            &&& v.q.deficit < v.q.packets[0].size()
        }),
{
    let live = q.packets.skip(expired_run(q.packets, now) as int);
    lemma_drain(live, q.deficit + quantum, now);
}

proof fn lemma_turn(t: Turn, quantum: int, target: u64, interval: u64, most: int)
    requires
        old_visit(t.q, quantum, target, interval, t.now).codel == 0,
        visited(t, quantum, target, interval).packets.len() > 0,
        forall|j: int| 0 <= j < t.q.packets.len() ==> (#[trigger] t.q.packets[j]).size() <= most,
    ensures
        wire_bytes(t, quantum, target, interval) == t.q.deficit + quantum - (visited(
            t,
            quantum,
            target,
            interval,
        ).deficit - t.charged),
        visited(t, quantum, target, interval).deficit < most,
        t.q.deficit + quantum >= 0 ==> visited(t, quantum, target, interval).deficit >= 0,
{
    let n = expired_run(t.q.packets, t.now);
    lemma_expired_run(t.q.packets, t.now);
    let live = t.q.packets.skip(n as int);
    lemma_drain(live, t.q.deficit + quantum, t.now);
    let d = drain(live, t.q.deficit + quantum, t.now);
    assert(d.rest[0] == live[live.len() - d.rest.len()]);
    assert(live[live.len() - d.rest.len()] == t.q.packets[n + live.len() - d.rest.len()]);
}

proof fn lemma_run(
    run: Seq<Turn>,
    quantum: int,
    target: u64,
    interval: u64,
    most: int,
    framing: int,
)
    requires
        run.len() > 0,
        backlogged(run, quantum, target, interval),
        bounded(run, most, framing),
        quantum >= framing,
        -framing <= run[0].q.deficit,
    ensures
        ({
            let after = visited(run.last(), quantum, target, interval).deficit
                - run.last().charged;
            &&& all_bytes(run, quantum, target, interval) == run.len() * quantum
                + run[0].q.deficit - after
            &&& -framing <= after < most
        }),
    decreases run.len(),
{
    let n = run.len();
    let last = run.last();
    assert(run[n - 1] == last);
    if n == 1 {
        lemma_turn(last, quantum, target, interval, most);
        assert(all_bytes(run.drop_last(), quantum, target, interval) == 0);
        assert(run.len() * quantum == quantum) by (nonlinear_arith)
            requires
                run.len() == 1,
        ;
    } else {
        let front = run.drop_last();
        assert(backlogged(front, quantum, target, interval)) by {
            assert forall|i: int|
                #![trigger front[i + 1]]
                0 <= i < front.len() - 1 implies front[i + 1].q.deficit == visited(
                front[i],
                quantum,
                target,
                interval,
            ).deficit - front[i].charged by {
                assert(run[i + 1] == front[i + 1]);
            }
        }
        lemma_run(front, quantum, target, interval, most, framing);
        assert(front.last() == run[n - 2]);
        assert(run[(n - 2) + 1] == last);
        lemma_turn(last, quantum, target, interval, most);
        assert(n * quantum == (n - 1) * quantum + quantum) by (nonlinear_arith);
    }
}

/// Backlogged flows receive equal byte shares, whatever the sizes of their packets: after
/// equally many visits, what two flows have put on the wire differs by less than two
/// packets and the framing of four turns.
pub proof fn law_equal_byte_shares(
    a: Seq<Turn>,
    b: Seq<Turn>,
    quantum: int,
    target: u64,
    interval: u64,
    most: int,
    framing: int,
)
    requires
        a.len() == b.len(),
        a.len() > 0,
        backlogged(a, quantum, target, interval),
        backlogged(b, quantum, target, interval),
        bounded(a, most, framing),
        bounded(b, most, framing),
        quantum >= framing,
        -framing <= a[0].q.deficit < most,
        -framing <= b[0].q.deficit < most,
    ensures
        -2 * (most + framing) < all_bytes(a, quantum, target, interval) - all_bytes(
            b,
            quantum,
            target,
            interval,
        ) < 2 * (most + framing),
{
    lemma_run(a, quantum, target, interval, most, framing);
    lemma_run(b, quantum, target, interval, most, framing);
}

/// The scheduler after turns of the rotation at the given times.
pub open spec fn after_turns(s: SchedState, times: Seq<u64>) -> SchedState
    decreases times.len(),
{
    if times.len() == 0 {
        s
    } else {
        old_turn(after_turns(s, times.drop_last()), times.last()).0
    }
}

/// Every flow that has its turn is there and stays backlogged.
pub open spec fn all_stay(s: SchedState, times: Seq<u64>) -> bool
    decreases times.len(),
{
    times.len() > 0 ==> {
        let t = after_turns(s, times.drop_last());
        &&& all_stay(s, times.drop_last())
        &&& t.flows.contains_key(t.old_list[0])
        &&& old_visit(
            t.flows[t.old_list[0]],
            t.quantum as int,
            t.target,
            t.interval,
            times.last(),
        ).q.packets.len() > 0
    }
}

/// The rotation visits backlogged flows in turn: after `j` turns the flows that had theirs
/// stand behind the others, in the order of their visits. After as many turns as there
/// are flows each has had one, and they stand as they stood.
pub proof fn law_flows_take_turns(s: SchedState, times: Seq<u64>)
    requires
        times.len() <= s.old_list.len(),
        all_stay(s, times),
    ensures
        after_turns(s, times).old_list == s.old_list.skip(times.len() as int) + s.old_list.take(
            times.len() as int,
        ),
        times.len() == s.old_list.len() ==> after_turns(s, times).old_list == s.old_list,
    decreases times.len(),
{
    let j = times.len() as int;
    if j == 0 {
        assert(s.old_list.skip(0) + s.old_list.take(0) =~= s.old_list);
    } else {
        law_flows_take_turns(s, times.drop_last());
        let l = s.old_list;
        let before = l.skip(j - 1) + l.take(j - 1);
        let t = after_turns(s, times.drop_last());
        assert(t.old_list =~= before);
        assert(before[0] == l[j - 1]);
        assert(before.drop_first().push(l[j - 1]) =~= l.skip(j) + l.take(j));
        if j == l.len() {
            assert(l.skip(j) + l.take(j) =~= l);
        }
    }
}

} // verus!
