//! Bounded per-peer reassembly of segmented packets.
//!
//! Out-of-order and duplicate segments are accepted; a missing segment kills the
//! packet after a timeout; conflicting segments drop the whole packet. Every byte
//! that is held is reserved first, against the peer's cap and against the budget
//! that all peers share.

pub mod laws;
pub mod limits;

use crate::frame::{decode_frame, header_at, is_malformed, malformed, net_at, Frame, SegmentHeader};
use crate::octets::{append, same_bytes};
use crate::table::{lemma_weight_push, lemma_weight_remove, slot, weight, Table};
use std::collections::VecDeque;
use vstd::prelude::*;

verus! {

/// Maximum concurrent reassemblies per peer.
pub const MAX_ENTRIES_PER_PEER: usize = 32;

/// Maximum bytes held in reassembly per peer.
pub const MAX_BYTES_PER_PEER: usize = 256 * 1024;

/// Hard budget across all peers.
pub const MAX_BYTES_GLOBAL: u64 = 4 * 1024 * 1024;

/// Reassembly lifetime (nanoseconds).
pub const REASSEMBLY_TIMEOUT: u64 = 500_000_000;

/// Why a segment, or the packet it belongs to, was dropped.
#[derive(Debug, Clone, Copy, PartialEq, Eq, Structural)]
pub enum ReassemblyDrop {
    Malformed,
    TooManyEntries,
    OverBytes,
    Timeout,
    Conflict,
    Incomplete,
}

/// What became of a segment.
#[derive(Debug)]
pub enum InsertOut {
    /// Logical packet complete.
    Complete(Vec<u8>),
    /// Segment stored, waiting for more.
    Pending,
    /// Exact duplicate segment: ignored.
    Duplicate,
    /// Dropped with reason. Where a cap or a conflict is the reason, the
    /// reassembly that the segment belongs to is dropped with it.
    Dropped(ReassemblyDrop),
}

/// What became of a datagram.
#[derive(Debug)]
pub enum FeedOut {
    Single(u128, Vec<u8>),
    Complete(Vec<u8>),
    Pending,
    Duplicate,
    Dropped(ReassemblyDrop),
}

/// One packet under reassembly.
pub struct Entry {
    pub total: u16,
    pub count: u16,
    pub segments: Vec<Option<Vec<u8>>>,
    pub have: usize,
    pub bytes: usize,
    pub deadline: u128,
}

/// One packet under reassembly, as the model sees it.
pub struct EntryState {
    pub total: u16,
    pub count: u16,
    pub segments: Seq<Option<Seq<u8>>>,
    pub deadline: u128,
}

pub open spec fn segment_views(s: Seq<Option<Vec<u8>>>) -> Seq<Option<Seq<u8>>> {
    Seq::new(
        s.len(),
        |i: int|
            match s[i] {
                Some(v) => Some(v@),
                None => None,
            },
    )
}

/// The segments that are there, in index order, as one byte string.
pub open spec fn joined(s: Seq<Option<Seq<u8>>>) -> Seq<u8>
    decreases s.len(),
{
    if s.len() == 0 {
        Seq::empty()
    } else {
        joined(s.drop_last()) + (match s.last() {
            Some(p) => p,
            None => Seq::empty(),
        })
    }
}

/// How many segments are there.
pub open spec fn present(s: Seq<Option<Seq<u8>>>) -> nat
    decreases s.len(),
{
    if s.len() == 0 {
        0
    } else {
        present(s.drop_last()) + (if s.last() is Some {
            1nat
        } else {
            0
        })
    }
}

proof fn lemma_fill(s: Seq<Option<Seq<u8>>>, i: int, p: Seq<u8>)
    requires
        0 <= i < s.len(),
        s[i] is None,
    ensures
        joined(s.update(i, Some(p))).len() == joined(s).len() + p.len(),
        present(s.update(i, Some(p))) == present(s) + 1,
    decreases s.len(),
{
    let t = s.update(i, Some(p));
    if i == s.len() - 1 {
        assert(t.drop_last() =~= s.drop_last());
    } else {
        lemma_fill(s.drop_last(), i, p);
        assert(t.drop_last() =~= s.drop_last().update(i, Some(p)));
        assert(t.last() == s.last());
    }
}

proof fn lemma_present_bound(s: Seq<Option<Seq<u8>>>)
    ensures
        present(s) <= s.len(),
        present(s) == s.len() ==> forall|i: int| 0 <= i < s.len() ==> (#[trigger] s[i]) is Some,
    decreases s.len(),
{
    if s.len() > 0 {
        lemma_present_bound(s.drop_last());
        if present(s) == s.len() {
            assert forall|i: int| 0 <= i < s.len() implies (#[trigger] s[i]) is Some by {
                if i < s.len() - 1 {
                    assert(s.drop_last()[i] == s[i]);
                }
            }
        }
    }
}

proof fn lemma_empty_slots(n: nat)
    ensures
        joined(Seq::new(n, |i: int| None::<Seq<u8>>)).len() == 0,
        present(Seq::new(n, |i: int| None::<Seq<u8>>)) == 0,
    decreases n,
{
    let s = Seq::new(n, |i: int| None::<Seq<u8>>);
    if n > 0 {
        lemma_empty_slots((n - 1) as nat);
        assert(s.drop_last() =~= Seq::new((n - 1) as nat, |i: int| None::<Seq<u8>>));
    }
}

impl View for Entry {
    type V = EntryState;

    open spec fn view(&self) -> EntryState {
        EntryState {
            total: self.total,
            count: self.count,
            segments: segment_views(self.segments@),
            deadline: self.deadline,
        }
    }
}

impl EntryState {
    pub open spec fn bytes(self) -> int {
        joined(self.segments).len() as int
    }

    pub open spec fn fresh(h: SegmentHeader, now: u64) -> EntryState {
        EntryState {
            total: h.total,
            count: h.count,
            segments: Seq::new(h.count as nat, |i: int| None::<Seq<u8>>),
            deadline: (now + REASSEMBLY_TIMEOUT) as u128,
        }
    }
}

impl Entry {
    pub open spec fn wf(&self) -> bool {
        &&& self.segments@.len() == self.count
        &&& self.bytes == self@.bytes()
        &&& self.have == present(self@.segments)
        &&& self.have < self.count
    }
}

/// A peer's reassemblies, as the model sees them.
pub struct TableState {
    pub entries: Map<u32, EntryState>,
    /// Ids, oldest first.
    pub order: Seq<u32>,
    pub bytes: int,
    /// Bytes that all peers hold together.
    pub global: int,
    /// What they may hold together.
    pub cap: int,
}

/// The ids other than `id`, in the same order.
pub open spec fn without(order: Seq<u32>, id: u32) -> Seq<u32> {
    order.filter(|k: u32| k != id)
}

/// Drops the reassembly of `id`, if there is one, and releases its bytes.
pub open spec fn dropped(t: TableState, id: u32) -> TableState {
    if t.entries.contains_key(id) {
        let n = t.entries[id].bytes();
        TableState {
            entries: t.entries.remove(id),
            order: without(t.order, id),
            bytes: t.bytes - n,
            global: t.global - n,
            ..t
        }
    } else {
        t
    }
}

pub open spec fn overdue(t: TableState, id: u32, now: u64) -> bool {
    t.entries.contains_key(id) && now >= t.entries[id].deadline
}

/// Drops those of `ids` whose deadline has passed.
pub open spec fn swept(t: TableState, ids: Seq<u32>, now: u64) -> TableState
    decreases ids.len(),
{
    if ids.len() == 0 {
        t
    } else {
        swept(
            if overdue(t, ids[0], now) {
                dropped(t, ids[0])
            } else {
                t
            },
            ids.drop_first(),
            now,
        )
    }
}

/// The outcome of an insertion.
pub enum Inserted {
    Complete(Seq<u8>),
    Pending,
    Duplicate,
    Dropped(ReassemblyDrop),
}

/// Makes sure that the segment's packet has an entry. A packet of another shape
/// under the same id is dropped; at the entry cap the oldest packet is.
pub open spec fn opened(t: TableState, h: SegmentHeader, now: u64) -> TableState {
    let clash = t.entries.contains_key(h.id) && (t.entries[h.id].total != h.total
        || t.entries[h.id].count != h.count);
    let u = if clash {
        dropped(t, h.id)
    } else {
        t
    };
    if u.entries.contains_key(h.id) {
        u
    } else {
        let v = if u.order.len() >= MAX_ENTRIES_PER_PEER {
            dropped(u, u.order[0])
        } else {
            u
        };
        TableState {
            entries: v.entries.insert(h.id, EntryState::fresh(h, now)),
            order: v.order.push(h.id),
            ..v
        }
    }
}

/// Drops the oldest packet, unless it is the one that `id` belongs to.
pub open spec fn relieved(t: TableState, id: u32) -> TableState {
    if t.order.len() > 0 && t.order[0] != id {
        dropped(t, t.order[0])
    } else {
        t
    }
}

/// Makes room for `n` bytes, under the peer's cap and then under the shared one.
/// `false` where there is none: the packet is then dropped too.
pub open spec fn roomy(t: TableState, id: u32, n: int) -> (TableState, bool) {
    let u = if t.bytes + n > MAX_BYTES_PER_PEER {
        relieved(t, id)
    } else {
        t
    };
    if u.bytes + n > MAX_BYTES_PER_PEER {
        (dropped(u, id), false)
    } else if u.global + n <= u.cap {
        (u, true)
    } else {
        let v = relieved(u, id);
        if v.global + n <= v.cap {
            (v, true)
        } else {
            (dropped(v, id), false)
        }
    }
}

/// Puts the segment in its place; a packet with all its segments leaves the table.
pub open spec fn stored(t: TableState, h: SegmentHeader, payload: Seq<u8>) -> (
    TableState,
    Inserted,
) {
    let e = t.entries[h.id];
    let segments = e.segments.update(h.index as int, Some(payload));
    let f = EntryState { segments, ..e };
    let u = TableState {
        entries: t.entries.insert(h.id, f),
        bytes: t.bytes + payload.len(),
        global: t.global + payload.len(),
        ..t
    };
    if present(segments) < h.count {
        (u, Inserted::Pending)
    } else if joined(segments).len() != h.total {
        (dropped(u, h.id), Inserted::Dropped(ReassemblyDrop::Incomplete))
    } else {
        (dropped(u, h.id), Inserted::Complete(joined(segments)))
    }
}

/// The decision on one segment.
pub open spec fn insert_step(t: TableState, h: SegmentHeader, payload: Seq<u8>, now: u64) -> (
    TableState,
    Inserted,
) {
    let live = swept(t, t.order, now);
    if malformed(h, payload.len()) {
        (live, Inserted::Dropped(ReassemblyDrop::Malformed))
    } else {
        let u = opened(live, h, now);
        match u.entries[h.id].segments[h.index as int] {
            Some(p) => if p == payload {
                (u, Inserted::Duplicate)
            } else {
                (dropped(u, h.id), Inserted::Dropped(ReassemblyDrop::Conflict))
            },
            None => {
                let (v, room) = roomy(u, h.id, payload.len() as int);
                if room {
                    stored(v, h, payload)
                } else {
                    (v, Inserted::Dropped(ReassemblyDrop::OverBytes))
                }
            },
        }
    }
}

pub open spec fn entry_states(m: Map<u32, Entry>) -> Map<u32, EntryState> {
    Map::new(|k: u32| m.dom().contains(k), |k: u32| m[k]@)
}

pub open spec fn held() -> spec_fn(Entry) -> nat {
    |e: Entry| e.bytes as nat
}

/// The queue of ids holds exactly the ids of the entries, once each.
pub open spec fn order_ok(dom: Set<u32>, order: Seq<u32>) -> bool {
    &&& order.no_duplicates()
    &&& forall|k: u32| #[trigger] dom.contains(k) <==> order.contains(k)
}

/// A peer's reassemblies.
pub struct ReassemblyTable {
    pub entries: Table<u32, Entry>,
    pub order: VecDeque<u32>,
    pub bytes: usize,
    pub max_bytes_global: u64,
}

proof fn lemma_without(order: Seq<u32>, id: u32)
    requires
        order.no_duplicates(),
    ensures
        without(order, id).no_duplicates(),
        forall|k: u32| #[trigger] without(order, id).contains(k) <==> order.contains(k) && k != id,
        order.contains(id) ==> without(order, id).len() == order.len() - 1,
        !order.contains(id) ==> without(order, id) == order,
    decreases order.len(),
{
    reveal(Seq::filter);
    let f = |k: u32| k != id;
    if order.len() == 0 {
        assert(without(order, id) =~= order);
    } else {
        let a = order.drop_last();
        let x = order.last();
        assert forall|i: int, j: int| 0 <= i < a.len() && 0 <= j < a.len() && i != j implies a[i]
            != a[j] by {
            assert(a[i] == order[i] && a[j] == order[j]);
        }
        lemma_without(a, id);
        let w = without(a, id);
        assert forall|k: u32| #[trigger] order.contains(k) <==> a.contains(k) || k == x by {
            if order.contains(k) {
                let i = choose|i: int| 0 <= i < order.len() && order[i] == k;
                if i < a.len() {
                    assert(a[i] == k);
                }
            }
            if a.contains(k) {
                let i = choose|i: int| 0 <= i < a.len() && a[i] == k;
                assert(order[i] == k);
            }
            assert(order[order.len() - 1] == x);
        }
        assert(!a.contains(x)) by {
            if a.contains(x) {
                let i = choose|i: int| 0 <= i < a.len() && a[i] == x;
                assert(order[i] == order[order.len() - 1]);
            }
        }
        if x != id {
            assert(without(order, id) == w.push(x));
            assert forall|k: u32| #[trigger] w.push(x).contains(k) <==> w.contains(k) || k == x by {
                if w.contains(k) {
                    let i = choose|i: int| 0 <= i < w.len() && w[i] == k;
                    assert(w.push(x)[i] == k);
                }
                assert(w.push(x)[w.len() as int] == x);
            }
            assert(!w.contains(x));
            if !order.contains(id) {
                assert(a.push(x) =~= order);
            }
        } else {
            assert(without(order, id) == w);
        }
    }
}

proof fn lemma_entry_states(m: Map<u32, Entry>, k: u32, e: Entry)
    ensures
        entry_states(m.remove(k)) == entry_states(m).remove(k),
        entry_states(m.insert(k, e)) == entry_states(m).insert(k, e@),
{
    assert(entry_states(m.remove(k)) =~= entry_states(m).remove(k));
    assert(entry_states(m.insert(k, e)) =~= entry_states(m).insert(k, e@));
}

impl ReassemblyTable {
    pub open spec fn state(&self, global: u64) -> TableState {
        TableState {
            entries: entry_states(self.entries@),
            order: self.order@,
            bytes: self.bytes as int,
            global: global as int,
            cap: self.max_bytes_global as int,
        }
    }

    /// The counts are exact and the caps hold.
    pub open spec fn wf(&self) -> bool {
        &&& self.entries.wf()
        &&& order_ok(self.entries@.dom(), self.order@)
        &&& self.order@.len() == self.entries.entries@.len()
        &&& forall|k: u32| #[trigger] self.entries@.dom().contains(k) ==> self.entries@[k].wf()
        &&& self.bytes == weight(self.entries.entries@, held())
        &&& self.bytes <= MAX_BYTES_PER_PEER
        &&& self.order@.len() <= MAX_ENTRIES_PER_PEER
    }

    pub fn new() -> (t: Self)
        ensures
            t.wf(),
            t.state(0) == (TableState {
                entries: Map::empty(),
                order: Seq::empty(),
                bytes: 0,
                global: 0,
                cap: MAX_BYTES_GLOBAL as int,
            }),
    {
        Self::with_global_cap(MAX_BYTES_GLOBAL)
    }

    pub fn with_global_cap(max_bytes_global: u64) -> (t: Self)
        ensures
            t.wf(),
            t.state(0) == (TableState {
                entries: Map::empty(),
                order: Seq::empty(),
                bytes: 0,
                global: 0,
                cap: max_bytes_global as int,
            }),
    {
        let t = ReassemblyTable {
            entries: Table::new(),
            order: VecDeque::new(),
            bytes: 0,
            max_bytes_global,
        };
        assert(entry_states(t.entries@) =~= Map::empty());
        t
    }

    pub fn len(&self) -> (n: usize)
        ensures
            n == self.entries.entries@.len(),
    {
        self.entries.len()
    }

    pub fn is_empty(&self) -> (b: bool)
        ensures
            b == (self.entries.entries@.len() == 0),
    {
        self.entries.len() == 0
    }

    pub fn bytes(&self) -> (n: usize)
        ensures
            n == self.bytes,
    {
        self.bytes
    }

    /// Drops one reassembly: see [`dropped`].
    fn remove(&mut self, id: u32, global: &mut u64)
        requires
            old(self).wf(),
            old(self).bytes <= *old(global),
        ensures
            final(self).wf(),
            final(self).bytes <= *final(global),
            final(self).state(*final(global)) == dropped(old(self).state(*old(global)), id),
            final(self).entries@ == old(self).entries@.remove(id),
            final(self).bytes <= old(self).bytes,
            final(self).max_bytes_global == old(self).max_bytes_global,
            *final(global) <= *old(global),
            *final(global) - final(self).bytes == *old(global) - old(self).bytes,
    {
        let ghost s0 = *self;
        match self.entries.take(&id) {
            Some(e) => {
                proof {
                    lemma_weight_remove(s0.entries.entries@, slot(s0.entries.entries@, id), held());
                    lemma_entry_states(s0.entries@, id, e);
                    lemma_without(s0.order@, id);
                    assert(s0.entries@.dom().contains(id));
                }
                self.bytes = self.bytes - e.bytes;
                *global = *global - e.bytes as u64;
                self.forget(id, Ghost(s0));
            },
            None => {
                assert(s0.entries@.remove(id) =~= s0.entries@);
            },
        }
    }
    /// Drops the reassemblies whose deadline has passed: see [`swept`].
    fn expire(&mut self, now: u64, global: &mut u64)
        requires
            old(self).wf(),
            old(self).bytes <= *old(global),
        ensures
            final(self).wf(),
            final(self).bytes <= *final(global),
            final(self).state(*final(global)) == swept(
                old(self).state(*old(global)),
                old(self).order@,
                now,
            ),
            final(self).max_bytes_global == old(self).max_bytes_global,
            *final(global) <= *old(global),
            *final(global) - final(self).bytes == *old(global) - old(self).bytes,
    {
        let ids = self.order_ids();
        let ghost goal = swept(self.state(*global), ids@, now);
        assert(ids@.skip(0) =~= ids@);
        let mut i: usize = 0;
        while i < ids.len()
            invariant
                self.wf(),
                self.bytes <= *global,
                i <= ids@.len(),
                goal == swept(self.state(*global), ids@.skip(i as int), now),
                goal == swept(old(self).state(*old(global)), old(self).order@, now),
                self.max_bytes_global == old(self).max_bytes_global,
                *global <= *old(global),
                *global - self.bytes == *old(global) - old(self).bytes,
            decreases ids.len() - i,
        {
            let id: u32 = ids[i];
            assert(ids@.skip(i as int).drop_first() =~= ids@.skip(i + 1));
            let late = match self.entries.get(&id) {
                Some(e) => now as u128 >= e.deadline,
                None => false,
            };
            if late {
                self.remove(id, global);
            }
            i += 1;
        }
    }

    /// The ids under reassembly, oldest first.
    fn order_ids(&self) -> (v: Vec<u32>)
        ensures
            v@ == self.order@,
    {
        let mut v: Vec<u32> = Vec::new();
        let mut i: usize = 0;
        while i < self.order.len()
            invariant
                i <= self.order@.len(),
                v@ == self.order@.take(i as int),
            decreases self.order.len() - i,
        {
            v.push(self.order[i]);
            assert(self.order@.take(i + 1) =~= self.order@.take(i as int).push(
                self.order@[i as int],
            ));
            i += 1;
        }
        assert(self.order@.take(self.order@.len() as int) =~= self.order@);
        v
    }

    /// Makes sure that the segment's packet has an entry: see [`opened`].
    fn open_entry(&mut self, h: &SegmentHeader, now: u64, global: &mut u64)
        requires
            old(self).wf(),
            old(self).bytes <= *old(global),
            h.count >= 2,
        ensures
            final(self).wf(),
            final(self).bytes <= *final(global),
            final(self).state(*final(global)) == opened(old(self).state(*old(global)), *h, now),
            final(self).entries@.dom().contains(h.id),
            final(self).entries@[h.id].count == h.count,
            final(self).entries@[h.id].total == h.total,
            final(self).max_bytes_global == old(self).max_bytes_global,
            *final(global) <= *old(global),
            *final(global) - final(self).bytes == *old(global) - old(self).bytes,
    {
        let clash = match self.entries.get(&h.id) {
            Some(e) => e.total != h.total || e.count != h.count,
            None => false,
        };
        if clash {
            self.remove(h.id, global);
        }
        if self.entries.contains(&h.id) {
            return ;
        }
        if self.order.len() >= MAX_ENTRIES_PER_PEER {
            proof {
                assert(self.order@.contains(self.order@[0]));
                assert(self.entries@.dom().contains(self.order@[0]));
                lemma_without(self.order@, self.order@[0]);
            }
            let oldest: u32 = self.order[0];
            self.remove(oldest, global);
        }
        let ghost s1 = *self;
        let mut segments: Vec<Option<Vec<u8>>> = Vec::new();
        let mut i: u16 = 0;
        while i < h.count
            invariant
                i <= h.count,
                segments@.len() == i,
                forall|j: int| 0 <= j < i ==> (#[trigger] segments@[j]) is None,
            decreases h.count - i,
        {
            segments.push(None);
            i += 1;
        }
        let e = Entry {
            total: h.total,
            count: h.count,
            segments,
            have: 0,
            bytes: 0,
            deadline: now as u128 + REASSEMBLY_TIMEOUT as u128,
        };
        proof {
            assert(e@.segments =~= EntryState::fresh(*h, now).segments);
            lemma_empty_slots(h.count as nat);
            lemma_entry_states(s1.entries@, h.id, e);
            lemma_weight_push(s1.entries.entries@, (h.id, e), held());
            assert(!s1.order@.contains(h.id)) by {
                assert(!s1.entries@.dom().contains(h.id));
            }
            let o = s1.order@.push(h.id);
            assert(o[s1.order@.len() as int] == h.id);
            assert forall|k: u32| #[trigger] o.contains(k) <==> s1.order@.contains(k) || k
                == h.id by {
                if s1.order@.contains(k) {
                    let j = choose|j: int| 0 <= j < s1.order@.len() && s1.order@[j] == k;
                    assert(o[j] == k);
                }
            }
        }
        let _ = self.entries.insert(h.id, e);
        self.order.push_back(h.id);
        proof {
            assert(order_ok(self.entries@.dom(), self.order@)) by {
                assert forall|k: u32| #[trigger]
                    self.entries@.dom().contains(k) <==> self.order@.contains(k) by {
                    assert(s1.entries@.dom().contains(k) <==> s1.order@.contains(k));
                }
            }
            assert forall|k: u32| #[trigger]
                self.entries@.dom().contains(k) implies self.entries@[k].wf() by {
                if k != h.id {
                    assert(s1.entries@.dom().contains(k));
                }
            }
        }
    }

    /// Drops the oldest packet, unless it is the given one: see [`relieved`].
    fn relieve(&mut self, id: u32, global: &mut u64)
        requires
            old(self).wf(),
            old(self).bytes <= *old(global),
        ensures
            final(self).wf(),
            final(self).bytes <= *final(global),
            final(self).bytes <= old(self).bytes,
            final(self).state(*final(global)) == relieved(old(self).state(*old(global)), id),
            old(self).entries@.dom().contains(id) ==> final(self).entries@.dom().contains(id)
                && final(self).entries@[id] == old(self).entries@[id],
            final(self).max_bytes_global == old(self).max_bytes_global,
            *final(global) <= *old(global),
            *final(global) - final(self).bytes == *old(global) - old(self).bytes,
    {
        if self.order.len() > 0 {
            let oldest: u32 = self.order[0];
            if oldest != id {
                self.remove(oldest, global);
            }
        }
    }

    /// Makes room for `n` bytes: see [`roomy`].
    fn make_room(&mut self, id: u32, n: usize, global: &mut u64) -> (room: bool)
        requires
            old(self).wf(),
            old(self).bytes <= *old(global),
            old(self).entries@.dom().contains(id),
            n <= 0xffff,
        ensures
            final(self).wf(),
            final(self).bytes <= *final(global),
            (final(self).state(*final(global)), room) == roomy(
                old(self).state(*old(global)),
                id,
                n as int,
            ),
            room ==> final(self).entries@.dom().contains(id) && final(self).entries@[id] == old(
                self,
            ).entries@[id] && final(self).bytes + n <= MAX_BYTES_PER_PEER && *final(global) + n
                <= final(self).max_bytes_global,
            final(self).max_bytes_global == old(self).max_bytes_global,
            *final(global) <= *old(global),
            *final(global) - final(self).bytes == *old(global) - old(self).bytes,
    {
        if self.bytes + n > MAX_BYTES_PER_PEER {
            self.relieve(id, global);
            if self.bytes + n > MAX_BYTES_PER_PEER {
                self.remove(id, global);
                return false;
            }
        }
        if n as u64 <= self.max_bytes_global && *global <= self.max_bytes_global - n as u64 {
            return true;
        }
        self.relieve(id, global);
        if n as u64 <= self.max_bytes_global && *global <= self.max_bytes_global - n as u64 {
            return true;
        }
        self.remove(id, global);
        false
    }

    /// Puts a segment in its place: see [`stored`].
    fn store(&mut self, h: &SegmentHeader, payload: Vec<u8>, global: &mut u64) -> (out: InsertOut)
        requires
            old(self).wf(),
            old(self).bytes <= *old(global),
            old(self).entries@.dom().contains(h.id),
            old(self).entries@[h.id].count == h.count,
            old(self).entries@[h.id].total == h.total,
            h.index < h.count,
            old(self).entries@[h.id]@.segments[h.index as int] is None,
            old(self).bytes + payload@.len() <= MAX_BYTES_PER_PEER,
            *old(global) + payload@.len() <= u64::MAX,
        ensures
            final(self).wf(),
            final(self).bytes <= *final(global),
            ({
                let (t, r) = stored(old(self).state(*old(global)), *h, payload@);
                &&& final(self).state(*final(global)) == t
                &&& inserted(out) == r
            }),
            final(self).max_bytes_global == old(self).max_bytes_global,
            *final(global) <= *old(global) + payload@.len(),
            *final(global) - final(self).bytes == *old(global) - old(self).bytes,
    {
        let ghost s0 = *self;
        let ghost bytes = payload@;
        let n: usize = payload.len();
        let mut e = self.entries.take(&h.id).unwrap();
        let ghost e0 = e;
        let idx: usize = h.index as usize;
        proof {
            lemma_fill(e0@.segments, idx as int, bytes);
            lemma_present_bound(e0@.segments.update(idx as int, Some(bytes)));
            lemma_weight_remove(s0.entries.entries@, slot(s0.entries.entries@, h.id), held());
            assert(e0.wf());
        }
        e.segments.set(idx, Some(payload));
        assert(e@.segments =~= e0@.segments.update(idx as int, Some(bytes)));
        e.bytes = e.bytes + n;
        e.have = e.have + 1;
        self.bytes = self.bytes + n;
        *global = *global + n as u64;
        if e.have < e.count as usize {
            proof {
                lemma_entry_states(s0.entries@, h.id, e);
                lemma_weight_push(self.entries.entries@, (h.id, e), held());
                assert(s0.entries@.remove(h.id).insert(h.id, e) =~= s0.entries@.insert(h.id, e));
            }
            let _ = self.entries.insert(h.id, e);
            proof {
                assert(self.entries@.dom() =~= s0.entries@.dom());
                assert forall|k: u32| #[trigger]
                    self.entries@.dom().contains(k) implies self.entries@[k].wf() by {
                    assert(s0.entries@.dom().contains(k));
                }
            }
            return InsertOut::Pending;
        }
        let out = assemble(&e);
        let total: usize = out.len();
        self.bytes = self.bytes - e.bytes;
        *global = *global - e.bytes as u64;
        self.forget(h.id, Ghost(s0));
        proof {
            lemma_entry_states(s0.entries@, h.id, e);
            assert(entry_states(s0.entries@).insert(h.id, e@).remove(h.id) =~= entry_states(
                s0.entries@,
            ).remove(h.id));
        }
        if total != h.total as usize {
            return InsertOut::Dropped(ReassemblyDrop::Incomplete);
        }
        InsertOut::Complete(out)
    }

    /// Takes an id whose entry is gone off the queue.
    fn forget(&mut self, id: u32, Ghost(s0): Ghost<Self>)
        requires
            s0.wf(),
            s0.entries@.dom().contains(id),
            old(self).entries.wf(),
            old(self).entries@ == s0.entries@.remove(id),
            old(self).entries.entries@.len() == s0.entries.entries@.len() - 1,
            old(self).order@ == s0.order@,
            old(self).bytes == weight(old(self).entries.entries@, held()),
            old(self).bytes <= MAX_BYTES_PER_PEER,
        ensures
            final(self).wf(),
            final(self).entries == old(self).entries,
            final(self).bytes == old(self).bytes,
            final(self).max_bytes_global == old(self).max_bytes_global,
            final(self).order@ == without(s0.order@, id),
    {
        proof {
            lemma_without(s0.order@, id);
            reveal(Seq::filter);
        }
        let mut kept: VecDeque<u32> = VecDeque::new();
        let mut i: usize = 0;
        assert(self.order@.take(0) =~= Seq::empty());
        while i < self.order.len()
            invariant
                i <= self.order@.len(),
                kept@ == without(self.order@.take(i as int), id),
            decreases self.order.len() - i,
        {
            let k: u32 = self.order[i];
            proof {
                reveal(Seq::filter);
            }
            assert(self.order@.take(i + 1).drop_last() =~= self.order@.take(i as int));
            if k != id {
                kept.push_back(k);
            }
            i += 1;
        }
        assert(self.order@.take(self.order@.len() as int) =~= self.order@);
        self.order = kept;
        proof {
            assert(order_ok(self.entries@.dom(), self.order@)) by {
                assert forall|k: u32| #[trigger]
                    self.entries@.dom().contains(k) <==> self.order@.contains(k) by {
                    assert(s0.entries@.dom().contains(k) <==> s0.order@.contains(k));
                }
            }
            assert forall|k: u32| #[trigger]
                self.entries@.dom().contains(k) implies self.entries@[k].wf() by {
                assert(s0.entries@.dom().contains(k));
            }
        }
    }

    /// Inserts a segment. `global` counts the bytes that all tables hold; `now` is
    /// the observation time.
    pub fn insert(
        &mut self,
        h: SegmentHeader,
        payload: Vec<u8>,
        now: u64,
        global: &mut u64,
    ) -> (out: InsertOut)
        requires
            old(self).wf(),
            old(self).bytes <= *old(global),
        ensures
            final(self).wf(),
            final(self).bytes <= *final(global),
            ({
                let (t, r) = insert_step(old(self).state(*old(global)), h, payload@, now);
                &&& final(self).state(*final(global)) == t
                &&& inserted(out) == r
            }),
            final(self).max_bytes_global == old(self).max_bytes_global,
            *final(global) - final(self).bytes == *old(global) - old(self).bytes,
            *old(global) <= old(self).max_bytes_global ==> *final(global)
                <= old(self).max_bytes_global,
            out matches InsertOut::Complete(v) ==> v@.len() == h.total,
    {
        self.expire(now, global);
        if is_malformed(&h, payload.len()) {
            return InsertOut::Dropped(ReassemblyDrop::Malformed);
        }
        self.open_entry(&h, now, global);
        let idx: usize = h.index as usize;
        let seen: Option<bool> = match self.entries.get(&h.id) {
            Some(e) => {
                assert(e.wf());
                assert(e@.segments[idx as int] == (match e.segments@[idx as int] {
                    Some(v) => Some(v@),
                    None => None,
                }));
                match &e.segments[idx] {
                    Some(p) => Some(same_bytes(p.as_slice(), payload.as_slice())),
                    None => None,
                }
            },
            None => None,
        };
        match seen {
            Some(true) => {
                return InsertOut::Duplicate;
            },
            Some(false) => {
                self.remove(h.id, global);
                return InsertOut::Dropped(ReassemblyDrop::Conflict);
            },
            None => {},
        }
        if !self.make_room(h.id, payload.len(), global) {
            return InsertOut::Dropped(ReassemblyDrop::OverBytes);
        }
        self.store(&h, payload, global)
    }

    /// Feeds a raw datagram through frame decoding and insertion. Whole packets are
    /// returned directly, with the network that they are bound to.
    pub fn feed_datagram(&mut self, data: &[u8], now: u64, global: &mut u64) -> (out: FeedOut)
        requires
            old(self).wf(),
            old(self).bytes <= *old(global),
        ensures
            final(self).wf(),
            final(self).bytes <= *final(global),
            ({
                let (t, r) = feed_step(old(self).state(*old(global)), data@, now);
                &&& final(self).state(*final(global)) == t
                &&& fed(out) == r
            }),
            final(self).max_bytes_global == old(self).max_bytes_global,
            *final(global) - final(self).bytes == *old(global) - old(self).bytes,
            *old(global) <= old(self).max_bytes_global ==> *final(global)
                <= old(self).max_bytes_global,
            out matches FeedOut::Complete(v) ==> v@.len() == header_at(data@).total,
    {
        match decode_frame(data) {
            Some(Frame::Single { net, payload }) => FeedOut::Single(net, payload),
            Some(Frame::Segment { net: _, header, payload }) => {
                match self.insert(header, payload, now, global) {
                    InsertOut::Complete(v) => FeedOut::Complete(v),
                    InsertOut::Pending => FeedOut::Pending,
                    InsertOut::Duplicate => FeedOut::Duplicate,
                    InsertOut::Dropped(reason) => FeedOut::Dropped(reason),
                }
            },
            None => FeedOut::Dropped(ReassemblyDrop::Malformed),
        }
    }

    /// Gives all bytes that the table holds back to the shared budget.
    pub fn release(&mut self, global: &mut u64)
        requires
            old(self).wf(),
            old(self).bytes <= *old(global),
        ensures
            final(self).wf(),
            final(self).bytes == 0,
            final(self).entries@ == Map::<u32, Entry>::empty(),
            final(self).entries.entries@.len() == 0,
            final(self).max_bytes_global == old(self).max_bytes_global,
            *final(global) == *old(global) - old(self).bytes,
    {
        *global = *global - self.bytes as u64;
        self.bytes = 0;
        self.entries.clear();
        self.order.clear();
    }
}

/// The segments of a complete entry, joined in index order.
fn assemble(e: &Entry) -> (out: Vec<u8>)
    ensures
        out@ == joined(e@.segments),
{
    let mut out: Vec<u8> = Vec::new();
    let ghost segs = e@.segments;
    let mut i: usize = 0;
    assert(segs.take(0) =~= Seq::empty());
    while i < e.segments.len()
        invariant
            segs == e@.segments,
            segs.len() == e.segments@.len(),
            i <= e.segments@.len(),
            out@ == joined(segs.take(i as int)),
        decreases e.segments.len() - i,
    {
        assert(segs.take(i + 1).drop_last() =~= segs.take(i as int));
        assert(segs.take(i + 1).last() == segs[i as int]);
        match &e.segments[i] {
            Some(p) => {
                append(&mut out, p.as_slice());
            },
            None => {
                assert(out@ + Seq::<u8>::empty() =~= out@);
            },
        }
        i += 1;
    }
    assert(segs.take(segs.len() as int) =~= segs);
    out
}

pub open spec fn inserted(out: InsertOut) -> Inserted {
    match out {
        InsertOut::Complete(v) => Inserted::Complete(v@),
        InsertOut::Pending => Inserted::Pending,
        InsertOut::Duplicate => Inserted::Duplicate,
        InsertOut::Dropped(r) => Inserted::Dropped(r),
    }
}

/// The outcome of feeding a datagram.
pub enum Fed {
    Single(u128, Seq<u8>),
    Segment(Inserted),
}

pub open spec fn fed(out: FeedOut) -> Fed {
    match out {
        FeedOut::Single(net, v) => Fed::Single(net, v@),
        FeedOut::Complete(v) => Fed::Segment(Inserted::Complete(v@)),
        FeedOut::Pending => Fed::Segment(Inserted::Pending),
        FeedOut::Duplicate => Fed::Segment(Inserted::Duplicate),
        FeedOut::Dropped(r) => Fed::Segment(Inserted::Dropped(r)),
    }
}

/// The decision on one datagram.
pub open spec fn feed_step(t: TableState, data: Seq<u8>, now: u64) -> (TableState, Fed) {
    if data.len() > crate::frame::SINGLE_OVERHEAD && data[0] == crate::frame::KIND_SINGLE {
        (t, Fed::Single(net_at(data), data.skip(crate::frame::SINGLE_OVERHEAD as int)))
    } else if data.len() > crate::frame::SEGMENT_OVERHEAD && data[0] == crate::frame::KIND_SEGMENT
        && !malformed(
        header_at(data),
        (data.len() - crate::frame::SEGMENT_OVERHEAD) as nat,
    ) {
        let (u, r) = insert_step(
            t,
            header_at(data),
            data.skip(crate::frame::SEGMENT_OVERHEAD as int),
            now,
        );
        (u, Fed::Segment(r))
    } else {
        (t, Fed::Segment(Inserted::Dropped(ReassemblyDrop::Malformed)))
    }
}

/// One after the other, as one byte string.
pub open spec fn concatenated(pieces: Seq<Seq<u8>>) -> Seq<u8>
    decreases pieces.len(),
{
    if pieces.len() == 0 {
        Seq::empty()
    } else {
        concatenated(pieces.drop_last()) + pieces.last()
    }
}

/// Every segment that is there is the piece of that index.
pub open spec fn agrees(e: EntryState, pieces: Seq<Seq<u8>>) -> bool {
    &&& e.count == pieces.len()
    &&& e.segments.len() == pieces.len()
    &&& e.total == concatenated(pieces).len()
    &&& forall|i: int|
        0 <= i < pieces.len() ==> ((#[trigger] e.segments[i]) is Some ==> e.segments[i]
            == Some(pieces[i]))
}

proof fn lemma_joined_all(s: Seq<Option<Seq<u8>>>, pieces: Seq<Seq<u8>>)
    requires
        s.len() == pieces.len(),
        forall|i: int| 0 <= i < s.len() ==> #[trigger] s[i] == Some(pieces[i]),
    ensures
        joined(s) == concatenated(pieces),
    decreases s.len(),
{
    if s.len() > 0 {
        assert forall|i: int| 0 <= i < s.drop_last().len() implies #[trigger] s.drop_last()[i]
            == Some(pieces.drop_last()[i]) by {
            assert(s.drop_last()[i] == s[i]);
        }
        lemma_joined_all(s.drop_last(), pieces.drop_last());
        assert(s[s.len() - 1] == Some(pieces[s.len() - 1]));
    }
}

proof fn lemma_swept_entry(t: TableState, ids: Seq<u32>, now: u64, id: u32)
    ensures
        ({
            let u = swept(t, ids, now);
            &&& u.entries.contains_key(id) ==> t.entries.contains_key(id) && u.entries[id]
                == t.entries[id]
            &&& t.entries.contains_key(id) && !overdue(t, id, now) ==> u.entries.contains_key(id)
            &&& ids.contains(id) && overdue(t, id, now) ==> !u.entries.contains_key(id)
        }),
    decreases ids.len(),
{
    if ids.len() > 0 {
        let v = if overdue(t, ids[0], now) {
            dropped(t, ids[0])
        } else {
            t
        };
        lemma_swept_entry(v, ids.drop_first(), now, id);
        if ids.contains(id) && ids[0] != id {
            let i = choose|i: int| 0 <= i < ids.len() && ids[i] == id;
            assert(ids.drop_first()[i - 1] == id);
        }
    }
}

/// The bytes that tables hold together.
pub open spec fn held_by_all(tables: Seq<ReassemblyTable>) -> int
    decreases tables.len(),
{
    if tables.len() == 0 {
        0
    } else {
        held_by_all(tables.drop_last()) + tables.last().bytes
    }
}

proof fn lemma_held_update(tables: Seq<ReassemblyTable>, i: int, t: ReassemblyTable)
    requires
        0 <= i < tables.len(),
    ensures
        held_by_all(tables.update(i, t)) == held_by_all(tables) - tables[i].bytes + t.bytes,
    decreases tables.len(),
{
    if i == tables.len() - 1 {
        assert(tables.update(i, t).drop_last() =~= tables.drop_last());
    } else {
        lemma_held_update(tables.drop_last(), i, t);
        assert(tables.update(i, t).drop_last() =~= tables.drop_last().update(i, t));
    }
}

/// The shared counter is the sum over the live tables, and stays so: a step of one table
/// that moves the counter by as much as its own bytes, as every operation does, keeps it
/// the sum.
pub proof fn law_budget_is_the_sum(
    tables: Seq<ReassemblyTable>,
    i: int,
    after: ReassemblyTable,
    global: int,
    global_after: int,
)
    requires
        0 <= i < tables.len(),
        global == held_by_all(tables),
        global_after - after.bytes == global - tables[i].bytes,
    ensures
        global_after == held_by_all(tables.update(i, after)),
{
    lemma_held_update(tables, i, after);
}

/// Timeouts are exact: a sweep drops the reassemblies whose deadline has passed,
/// and no others.
pub proof fn law_sweep_exact(t: TableState, now: u64, id: u32)
    requires
        order_ok(t.entries.dom(), t.order),
    ensures
        swept(t, t.order, now).entries.contains_key(id) == (t.entries.contains_key(id) && !overdue(
            t,
            id,
            now,
        )),
{
    lemma_swept_entry(t, t.order, now, id);
    if t.entries.contains_key(id) {
        assert(t.entries.dom().contains(id));
        assert(t.order.contains(id));
    }
}

/// Segments may arrive in any order: while every stored segment of a packet is the
/// piece of its index, so it stays, and a packet that completes is its pieces in
/// index order.
pub proof fn law_any_order(
    t: TableState,
    h: SegmentHeader,
    pieces: Seq<Seq<u8>>,
    now: u64,
)
    requires
        order_ok(t.entries.dom(), t.order),
        h.count == pieces.len(),
        h.total == concatenated(pieces).len(),
        h.index < h.count,
        t.entries.contains_key(h.id) && !overdue(t, h.id, now) ==> agrees(t.entries[h.id], pieces),
    ensures
        ({
            let (u, r) = insert_step(t, h, pieces[h.index as int], now);
            match r {
                Inserted::Complete(v) => v == concatenated(pieces),
                Inserted::Pending => u.entries.contains_key(h.id) && agrees(
                    u.entries[h.id],
                    pieces,
                ) && u.entries[h.id].segments[h.index as int] == Some(pieces[h.index as int]),
                Inserted::Duplicate => u.entries.contains_key(h.id) && agrees(
                    u.entries[h.id],
                    pieces,
                ),
                Inserted::Dropped(reason) => reason == ReassemblyDrop::Malformed || reason
                    == ReassemblyDrop::OverBytes,
            }
        }),
{
    let payload = pieces[h.index as int];
    if !malformed(h, payload.len()) {
        let live = swept(t, t.order, now);
        law_sweep_exact(t, now, h.id);
        lemma_swept_entry(t, t.order, now, h.id);
        let u = opened(live, h, now);
        let e = u.entries[h.id];
        assert(agrees(e, pieces));
        if e.segments[h.index as int] is None {
            let (v, room) = roomy(u, h.id, payload.len() as int);
            if room {
                assert(v.entries.contains_key(h.id) && v.entries[h.id] == e);
                let segs = e.segments.update(h.index as int, Some(payload));
                lemma_present_bound(segs);
                if present(segs) >= h.count {
                    lemma_joined_all(segs, pieces);
                }
            }
        }
    }
}

} // verus!
