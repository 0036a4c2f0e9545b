//! What holds of reassembly over several calls.

use super::{
    concatenated, fed, feed_step, held_by_all, insert_step, inserted, joined, lemma_empty_slots,
    lemma_fill, lemma_held_update, lemma_joined_all, lemma_present_bound, opened, order_ok, overdue,
    present, roomy, swept, without, EntryState, FeedOut, InsertOut, Inserted, ReassemblyTable,
    TableState, MAX_BYTES_PER_PEER, MAX_ENTRIES_PER_PEER, REASSEMBLY_TIMEOUT,
};
use crate::frame::{header_at, malformed, SegmentHeader, MAX_LOGICAL_LEN, MAX_SEGMENTS};
use vstd::prelude::*;

verus! {

/// The header of piece `i`.
pub open spec fn header_of(id: u32, pieces: Seq<Seq<u8>>, i: int) -> SegmentHeader {
    SegmentHeader {
        id,
        index: i as u16,
        count: pieces.len() as u16,
        total: concatenated(pieces).len() as u16,
    }
}

/// The table after the pieces of `order` have arrived at `times`.
pub open spec fn arrived(
    t: TableState,
    id: u32,
    pieces: Seq<Seq<u8>>,
    order: Seq<int>,
    times: Seq<u64>,
) -> TableState
    decreases order.len(),
{
    if order.len() == 0 {
        t
    } else {
        insert_step(
            arrived(t, id, pieces, order.drop_last(), times),
            header_of(id, pieces, order.last()),
            pieces[order.last()],
            times[order.len() - 1],
        ).0
    }
}

/// What the `n`th arrival gives.
pub open spec fn arrival(
    t: TableState,
    id: u32,
    pieces: Seq<Seq<u8>>,
    order: Seq<int>,
    times: Seq<u64>,
    n: int,
) -> Inserted {
    insert_step(
        arrived(t, id, pieces, order.take(n), times),
        header_of(id, pieces, order[n]),
        pieces[order[n]],
        times[n],
    ).1
}

/// A packet cut into pieces that the limits admit.
pub open spec fn cut(pieces: Seq<Seq<u8>>) -> bool {
    &&& 2 <= pieces.len() <= MAX_SEGMENTS
    &&& concatenated(pieces).len() <= MAX_LOGICAL_LEN
    &&& forall|i: int| 0 <= i < pieces.len() ==> (#[trigger] pieces[i]).len() > 0
}

/// The slots after the pieces of `seen` have arrived.
pub open spec fn filled(pieces: Seq<Seq<u8>>, seen: Seq<int>) -> Seq<Option<Seq<u8>>> {
    Seq::new(
        pieces.len(),
        |i: int|
            if seen.contains(i) {
                Some(pieces[i])
            } else {
                None
            },
    )
}

proof fn lemma_joined_le(s: Seq<Option<Seq<u8>>>, pieces: Seq<Seq<u8>>)
    requires
        s.len() == pieces.len(),
        forall|i: int| 0 <= i < s.len() ==> (#[trigger] s[i]) is None || s[i] == Some(pieces[i]),
    ensures
        joined(s).len() <= concatenated(pieces).len(),
        (forall|i: int| 0 <= i < s.len() ==> (#[trigger] s[i]) is Some) ==> present(s) == s.len(),
    decreases s.len(),
{
    if s.len() > 0 {
        let d = s.drop_last();
        assert forall|i: int| 0 <= i < d.len() implies (#[trigger] d[i]) is None || d[i] == Some(
            pieces.drop_last()[i],
        ) by {
            assert(d[i] == s[i]);
        }
        assert(s[s.len() - 1] is None || s[s.len() - 1] == Some(pieces[s.len() - 1]));
        lemma_joined_le(d, pieces.drop_last());
        if forall|i: int| 0 <= i < s.len() ==> (#[trigger] s[i]) is Some {
            assert forall|i: int| 0 <= i < d.len() implies (#[trigger] d[i]) is Some by {
                assert(d[i] == s[i]);
            }
            assert(s[s.len() - 1] is Some);
        }
    }
}

proof fn lemma_piece_le(pieces: Seq<Seq<u8>>, i: int)
    requires
        0 <= i < pieces.len(),
    ensures
        pieces[i].len() <= concatenated(pieces).len(),
    decreases pieces.len(),
{
    if i < pieces.len() - 1 {
        lemma_piece_le(pieces.drop_last(), i);
    }
}

proof fn lemma_swept_nothing(t: TableState, ids: Seq<u32>, now: u64)
    requires
        forall|k: u32| !overdue(t, k, now),
    ensures
        swept(t, ids, now) == t,
    decreases ids.len(),
{
    if ids.len() > 0 {
        lemma_swept_nothing(t, ids.drop_first(), now);
    }
}

/// The table while some of the pieces are there.
spec fn midway(t: TableState, id: u32, pieces: Seq<Seq<u8>>, seen: Seq<int>, start: u64) -> TableState {
    let s = filled(pieces, seen);
    TableState {
        entries: t.entries.insert(
            id,
            EntryState {
                total: concatenated(pieces).len() as u16,
                count: pieces.len() as u16,
                segments: s,
                deadline: (start + REASSEMBLY_TIMEOUT) as u128,
            },
        ),
        order: t.order.push(id),
        bytes: t.bytes + joined(s).len(),
        global: t.global + joined(s).len(),
        ..t
    }
}

/// The pieces may arrive: nothing else times out, no cap is in the way.
pub open spec fn undisturbed(t: TableState, id: u32, pieces: Seq<Seq<u8>>, times: Seq<u64>) -> bool {
    &&& order_ok(t.entries.dom(), t.order)
    &&& !t.entries.contains_key(id)
    &&& t.order.len() < MAX_ENTRIES_PER_PEER
    &&& t.bytes + concatenated(pieces).len() <= MAX_BYTES_PER_PEER
    &&& t.global + concatenated(pieces).len() <= t.cap
    &&& forall|i: int, k: u32|
        #![trigger times[i], t.entries.contains_key(k)]
        0 <= i < times.len() ==> !overdue(t, k, times[i])
    &&& forall|i: int|
        0 <= i < times.len() ==> (#[trigger] times[i]) < times[0] + REASSEMBLY_TIMEOUT
}

/// One arrival, where `seen` have arrived and not all pieces are there yet.
proof fn lemma_arrival(
    t: TableState,
    id: u32,
    pieces: Seq<Seq<u8>>,
    seen: Seq<int>,
    i: int,
    times: Seq<u64>,
)
    requires
        cut(pieces),
        undisturbed(t, id, pieces, times),
        seen.len() < times.len(),
        0 <= i < pieces.len(),
        seen.len() > 0 ==> exists|j: int| 0 <= j < pieces.len() && !#[trigger] seen.contains(j),
    ensures
        ({
            let s = if seen.len() == 0 {
                t
            } else {
                midway(t, id, pieces, seen, times[0])
            };
            let (u, r) = insert_step(
                s,
                header_of(id, pieces, i),
                pieces[i],
                times[seen.len() as int],
            );
            let now = seen.push(i);
            if seen.contains(i) {
                r == Inserted::Duplicate && u == midway(t, id, pieces, now, times[0])
            } else if exists|j: int| 0 <= j < pieces.len() && !#[trigger] now.contains(j) {
                r == Inserted::Pending && u == midway(t, id, pieces, now, times[0])
            } else {
                r == Inserted::Complete(concatenated(pieces)) && u == t
            }
        }),
{
    let now = seen.push(i);
    let at = times[seen.len() as int];
    let h = header_of(id, pieces, i);
    let s = if seen.len() == 0 {
        t
    } else {
        midway(t, id, pieces, seen, times[0])
    };
    let (u, r) = insert_step(s, h, pieces[i], at);
    assert forall|k: u32| !overdue(s, k, at) by {
        assert(times[0] < times[0] + REASSEMBLY_TIMEOUT);
        if t.entries.contains_key(k) {
            assert(!overdue(t, k, at));
        }
    }
    lemma_swept_nothing(s, s.order, at);
    lemma_piece_le(pieces, i);
    assert(!malformed(h, pieces[i].len()));
    let o = opened(s, h, at);
    let none = Seq::new(pieces.len(), |j: int| None::<Seq<u8>>);
    lemma_empty_slots(pieces.len());
    if seen.len() == 0 {
        assert(filled(pieces, seen) =~= none);
        assert(o.entries =~= midway(t, id, pieces, seen, times[0]).entries);
        assert(o == midway(t, id, pieces, seen, times[0]));
    }
    assert(o == midway(t, id, pieces, seen, times[0]));
    assert forall|j: int| now.contains(j) == (seen.contains(j) || j == i) by {
        if seen.contains(j) {
            let x = choose|x: int| 0 <= x < seen.len() && seen[x] == j;
            assert(now[x] == j);
        }
        assert(now[seen.len() as int] == i);
        if now.contains(j) && j != i {
            let x = choose|x: int| 0 <= x < now.len() && now[x] == j;
            assert(seen[x] == j);
        }
    }
    let before = filled(pieces, seen);
    let after = filled(pieces, now);
    if seen.contains(i) {
        assert(after =~= before);
    } else {
        assert(after =~= before.update(i, Some(pieces[i])));
        lemma_fill(before, i, pieces[i]);
        lemma_joined_le(after, pieces);
        let (v, room) = roomy(o, id, pieces[i].len() as int);
        assert(room && v == o);
        lemma_present_bound(after);
        if exists|j: int| 0 <= j < pieces.len() && !#[trigger] now.contains(j) {
            let j = choose|j: int| 0 <= j < pieces.len() && !#[trigger] now.contains(j);
            assert(after[j] is None);
            assert(u.entries =~= midway(t, id, pieces, now, times[0]).entries);
        } else {
            assert forall|j: int| 0 <= j < after.len() implies #[trigger] after[j] == Some(
                pieces[j],
            ) by {
                assert(now.contains(j));
            }
            lemma_joined_all(after, pieces);
            lemma_order_back(t.order, id, t.entries.dom());
            assert(u.entries =~= t.entries);
        }
    }
}

/// An id that is queued last and then taken off leaves the queue as it was.
proof fn lemma_order_back(order: Seq<u32>, id: u32, dom: Set<u32>)
    requires
        order_ok(dom, order),
        !dom.contains(id),
    ensures
        without(order.push(id), id) == order,
{
    super::lemma_without(order, id);
    reveal(Seq::filter);
    assert(order.push(id).drop_last() =~= order);
}

/// Whatever the order in which the pieces of a packet arrive, and however often each
/// is repeated before the last one that is new: a piece that is new is stored, a
/// repeated one is ignored, the last one that is new gives the packet back whole, and
/// the table is then as it was before the first.
pub proof fn law_pieces_make_the_packet(
    t: TableState,
    id: u32,
    pieces: Seq<Seq<u8>>,
    order: Seq<int>,
    times: Seq<u64>,
)
    requires
        cut(pieces),
        undisturbed(t, id, pieces, times),
        order.len() == times.len(),
        order.len() > 0,
        forall|n: int| 0 <= n < order.len() ==> 0 <= #[trigger] order[n] < pieces.len(),
        forall|i: int| 0 <= i < pieces.len() ==> #[trigger] order.contains(i),
        !order.drop_last().contains(order.last()),
    ensures
        forall|n: int|
            0 <= n < order.len() - 1 ==> #[trigger] arrival(t, id, pieces, order, times, n) == (
            if order.take(n).contains(order[n]) {
                Inserted::Duplicate
            } else {
                Inserted::Pending
            }),
        arrival(t, id, pieces, order, times, order.len() - 1) == Inserted::Complete(
            concatenated(pieces),
        ),
        arrived(t, id, pieces, order, times) == t,
{
    let last = order.len() - 1;
    assert forall|n: int| 0 <= n < last implies #[trigger] arrival(
        t,
        id,
        pieces,
        order,
        times,
        n,
    ) == (if order.take(n).contains(order[n]) {
        Inserted::Duplicate
    } else {
        Inserted::Pending
    }) by {
        lemma_arriving(t, id, pieces, order, times, n);
    }
    lemma_arriving(t, id, pieces, order, times, last);
    assert(order.take(last) =~= order.drop_last());
    let now = order.take(last).push(order[last]);
    assert(now =~= order);
    assert forall|j: int| 0 <= j < pieces.len() implies #[trigger] now.contains(j) by {
        assert(order.contains(j));
    }
}

/// The arrivals up to the `n`th.
proof fn lemma_arriving(
    t: TableState,
    id: u32,
    pieces: Seq<Seq<u8>>,
    order: Seq<int>,
    times: Seq<u64>,
    n: int,
)
    requires
        cut(pieces),
        undisturbed(t, id, pieces, times),
        order.len() == times.len(),
        0 <= n < order.len(),
        forall|m: int| 0 <= m < order.len() ==> 0 <= #[trigger] order[m] < pieces.len(),
        forall|i: int| 0 <= i < pieces.len() ==> #[trigger] order.contains(i),
        !order.drop_last().contains(order.last()),
    ensures
        arrived(t, id, pieces, order.take(n), times) == (if n == 0 {
            t
        } else {
            midway(t, id, pieces, order.take(n), times[0])
        }),
        ({
            let (u, r) = insert_step(
                arrived(t, id, pieces, order.take(n), times),
                header_of(id, pieces, order[n]),
                pieces[order[n]],
                times[n],
            );
            let now = order.take(n).push(order[n]);
            if order.take(n).contains(order[n]) {
                r == Inserted::Duplicate && u == midway(t, id, pieces, now, times[0])
            } else if n < order.len() - 1 {
                r == Inserted::Pending && u == midway(t, id, pieces, now, times[0])
            } else {
                r == Inserted::Complete(concatenated(pieces)) && u == t
            }
        }),
    decreases n,
{
    let seen = order.take(n);
    if n > 0 {
        lemma_arriving(t, id, pieces, order, times, n - 1);
        assert(seen.drop_last() =~= order.take(n - 1));
        assert(order.take(n - 1).push(order[n - 1]) =~= seen);
        assert(seen.last() == order[n - 1]);
    }
    let z = order.last();
    assert(!seen.contains(z)) by {
        if seen.contains(z) {
            let x = choose|x: int| 0 <= x < seen.len() && seen[x] == z;
            assert(order.drop_last()[x] == z);
        }
    }
    assert(0 <= order[order.len() - 1] < pieces.len());
    assert(0 <= order[n] < pieces.len());
    lemma_arrival(t, id, pieces, seen, order[n], times);
    let now = seen.push(order[n]);
    assert(now =~= order.take(n + 1));
    if n < order.len() - 1 {
        assert(!now.contains(z)) by {
            if now.contains(z) {
                let x = choose|x: int| 0 <= x < now.len() && now[x] == z;
                assert(order.drop_last()[x] == z);
            }
        }
    } else {
        assert(now =~= order);
    }
}

/// A call on one table and what it gave back.
pub enum Use {
    Insert { header: SegmentHeader, payload: Seq<u8>, now: u64, out: InsertOut },
    Feed { data: Seq<u8>, now: u64, gave: FeedOut },
    Release,
}

/// The call takes the table from `a` to `b` and the shared counter from `g` to `h`.
pub open spec fn takes(a: ReassemblyTable, g: u64, e: Use, b: ReassemblyTable, h: u64) -> bool {
    &&& a.wf()
    &&& a.bytes <= g
    &&& b.wf()
    &&& b.max_bytes_global == a.max_bytes_global
    &&& h - b.bytes == g - a.bytes
    &&& g <= a.max_bytes_global ==> h <= a.max_bytes_global
    &&& match e {
        Use::Insert { header, payload, now, out } => (b.state(h), inserted(out)) == insert_step(
            a.state(g),
            header,
            payload,
            now,
        ),
        Use::Feed { data, now, gave } => (b.state(h), fed(gave)) == feed_step(a.state(g), data, now),
        Use::Release => b.bytes == 0 && b.entries.entries@.len() == 0,
    }
}

/// A run of calls on tables that share one counter and one cap and start out empty.
/// `steps[n]` names the table that the call is made on.
pub open spec fn shared_run(
    tables: Seq<Seq<ReassemblyTable>>,
    counter: Seq<u64>,
    steps: Seq<(int, Use)>,
    cap: u64,
) -> bool {
    &&& tables.len() == steps.len() + 1
    &&& counter.len() == steps.len() + 1
    &&& counter[0] == 0
    &&& forall|i: int|
        0 <= i < tables[0].len() ==> (#[trigger] tables[0][i]).wf() && tables[0][i].bytes == 0
            && tables[0][i].max_bytes_global == cap
    &&& forall|n: int|
        0 <= n < steps.len() ==> {
            let i = (#[trigger] steps[n]).0;
            &&& 0 <= i < tables[n].len()
            &&& tables[n + 1] == tables[n].update(i, tables[n + 1][i])
            &&& takes(tables[n][i], counter[n], steps[n].1, tables[n + 1][i], counter[n + 1])
        }
}

/// The books of tables that share a counter.
pub open spec fn balanced(tables: Seq<ReassemblyTable>, counter: u64, cap: u64) -> bool {
    &&& counter == held_by_all(tables)
    &&& counter <= cap
    &&& forall|i: int|
        0 <= i < tables.len() ==> {
            &&& (#[trigger] tables[i]).wf()
            &&& tables[i].max_bytes_global == cap
            &&& tables[i].entries.entries@.len() <= MAX_ENTRIES_PER_PEER
            &&& tables[i].bytes <= MAX_BYTES_PER_PEER
            &&& tables[i].bytes <= counter
        }
}

proof fn lemma_held_each(tables: Seq<ReassemblyTable>)
    ensures
        held_by_all(tables) >= 0,
        forall|i: int| 0 <= i < tables.len() ==> (#[trigger] tables[i]).bytes <= held_by_all(tables),
        (forall|i: int| 0 <= i < tables.len() ==> (#[trigger] tables[i]).bytes == 0) ==> held_by_all(
            tables,
        ) == 0,
    decreases tables.len(),
{
    if tables.len() > 0 {
        let d = tables.drop_last();
        lemma_held_each(d);
        assert forall|i: int| 0 <= i < tables.len() implies (#[trigger] tables[i]).bytes
            <= held_by_all(tables) by {
            if i < d.len() {
                assert(d[i] == tables[i]);
            }
        }
        if forall|i: int| 0 <= i < tables.len() ==> (#[trigger] tables[i]).bytes == 0 {
            assert forall|i: int| 0 <= i < d.len() implies (#[trigger] d[i]).bytes == 0 by {
                assert(d[i] == tables[i]);
            }
            assert(tables[tables.len() - 1].bytes == 0);
        }
    }
}

/// After any run of calls on tables that share a budget: the counter is the sum of
/// what the tables hold and within the cap, every table is within its own caps, and
/// whatever the order of the calls, the next one may be made on any table.
pub proof fn law_shared_budget(
    tables: Seq<Seq<ReassemblyTable>>,
    counter: Seq<u64>,
    steps: Seq<(int, Use)>,
    cap: u64,
)
    requires
        shared_run(tables, counter, steps, cap),
    ensures
        balanced(tables.last(), counter.last(), cap),
    decreases steps.len(),
{
    if steps.len() == 0 {
        lemma_held_each(tables[0]);
    } else {
        let n = steps.len() - 1;
        let (before, count, earlier) = (tables.drop_last(), counter.drop_last(), steps.drop_last());
        assert forall|m: int| 0 <= m < earlier.len() implies ({
            let i = (#[trigger] earlier[m]).0;
            &&& 0 <= i < before[m].len()
            &&& before[m + 1] == before[m].update(i, before[m + 1][i])
            &&& takes(before[m][i], count[m], earlier[m].1, before[m + 1][i], count[m + 1])
        }) by {
            assert(earlier[m] == steps[m]);
        }
        assert(before[0] == tables[0]);
        law_shared_budget(before, count, earlier, cap);
        let i = steps[n].0;
        let (a, b) = (tables[n], tables[n + 1]);
        assert(a == before.last());
        assert(takes(a[i], counter[n], steps[n].1, b[i], counter[n + 1]));
        lemma_held_update(a, i, b[i]);
        lemma_held_each(b);
        assert forall|j: int| 0 <= j < b.len() implies ({
            &&& (#[trigger] b[j]).wf()
            &&& b[j].max_bytes_global == cap
        }) by {
            if j != i {
                assert(b[j] == a[j]);
            }
        }
    }
}

/// A packet that comes out of reassembly is as long as its header says.
pub proof fn law_complete_length(a: ReassemblyTable, g: u64, e: Use, b: ReassemblyTable, h: u64)
    requires
        takes(a, g, e, b, h),
    ensures
        match e {
            Use::Insert { header, payload: _, now: _, out: InsertOut::Complete(v) } => v@.len()
                == header.total,
            Use::Feed { data, now: _, gave: FeedOut::Complete(v) } => v@.len() == header_at(
                data,
            ).total,
            _ => true,
        },
{
}

} // verus!
