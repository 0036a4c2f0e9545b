//! What reassembly refuses, gives up and forgets.

use super::{
    feed_step, insert_step, joined, lemma_empty_slots, lemma_fill, lemma_without, order_ok, present,
    swept, without, EntryState, Fed, Inserted, ReassemblyDrop, TableState,
};
use crate::frame::{malformed, segment_prefix, SegmentHeader, KIND_SEGMENT, KIND_SINGLE};
use vstd::prelude::*;

verus! {

/// No reassembly of the table is due.
pub open spec fn nothing_due(t: TableState, now: u64) -> bool {
    forall|k: u32| #[trigger] t.entries.contains_key(k) ==> now < t.entries[k].deadline
}

proof fn lemma_swept_nothing(t: TableState, ids: Seq<u32>, now: u64)
    requires
        nothing_due(t, now),
    ensures
        swept(t, ids, now) == t,
    decreases ids.len(),
{
    if ids.len() > 0 {
        lemma_swept_nothing(t, ids.drop_first(), now);
    }
}

/// A segment that the limits rule out changes nothing: one of an empty or too long packet
/// (9000 bytes), in fewer than 2 or more than 16 pieces, beyond the last piece, empty, or
/// longer than the whole packet.
pub proof fn law_bad_segment_is_refused(
    t: TableState,
    h: SegmentHeader,
    payload: Seq<u8>,
    now: u64,
)
    requires
        nothing_due(t, now),
    ensures
        ({
            let bad = h.total == 0 || h.total > 9000 || h.count < 2 || h.count > 16 || h.index
                >= h.count || payload.len() == 0 || payload.len() > h.total;
            let (u, r) = insert_step(t, h, payload, now);
            &&& bad ==> r == Inserted::Dropped(ReassemblyDrop::Malformed) && u == t
            &&& !bad ==> r != Inserted::Dropped(ReassemblyDrop::Malformed)
        }),
{
    lemma_swept_nothing(t, t.order, now);
}

/// A packet under reassembly is given up half a second after its first segment: from then
/// on a segment of it starts a new one, and the bytes that it held are free again.
pub proof fn law_unfinished_packet_times_out(
    t: TableState,
    h: SegmentHeader,
    payload: Seq<u8>,
    now: u64,
    then: u64,
)
    requires
        t.entries == Map::<u32, EntryState>::empty(),
        t.order.len() == 0,
        t.bytes == 0,
        0 <= t.global,
        t.global + 9000 <= t.cap,
        !malformed(h, payload.len()),
        now < 0x8000_0000_0000_0000,
    ensures
        ({
            let (u, r) = insert_step(t, h, payload, now);
            let w = swept(u, u.order, then);
            &&& r == Inserted::Pending
            &&& u.entries.dom() == set![h.id]
            &&& u.bytes == payload.len()
            &&& u.global == t.global + payload.len()
            &&& then >= now + 500_000_000 ==> w.entries == Map::<u32, EntryState>::empty()
                && w.bytes == 0 && w.global == t.global && w.order.len() == 0
            &&& then < now + 500_000_000 ==> w == u
        }),
{
    let (u, r) = insert_step(t, h, payload, now);
    reveal_with_fuel(swept, 2);
    let none = Seq::new(h.count as nat, |i: int| None::<Seq<u8>>);
    lemma_empty_slots(h.count as nat);
    lemma_fill(none, h.index as int, payload);
    assert(t.order.push(h.id).drop_first() =~= Seq::<u32>::empty());
    assert(u.entries.dom() =~= set![h.id]);
    assert(t.order.push(h.id)[0] == h.id);
    lemma_without(t.order.push(h.id), h.id);
    assert(without(t.order.push(h.id), h.id) =~= Seq::<u32>::empty());
    if then >= now + 500_000_000 {
        assert(swept(u, u.order, then).entries =~= Map::empty());
    }
}

/// A segment that says something else than one with its index before it makes the whole
/// packet worthless: it is dropped, and its bytes are free again.
pub proof fn law_conflicting_segment_drops_the_packet(
    t: TableState,
    h: SegmentHeader,
    payload: Seq<u8>,
    now: u64,
)
    requires
        nothing_due(t, now),
        !malformed(h, payload.len()),
        t.entries.contains_key(h.id),
        t.entries[h.id].total == h.total,
        t.entries[h.id].count == h.count,
        t.entries[h.id].segments.len() == h.count,
        t.entries[h.id].segments[h.index as int] is Some,
    ensures
        ({
            let (u, r) = insert_step(t, h, payload, now);
            let same = t.entries[h.id].segments[h.index as int] == Some(payload);
            &&& same ==> r == Inserted::Duplicate && u == t
            &&& !same ==> r == Inserted::Dropped(ReassemblyDrop::Conflict)
                && !u.entries.contains_key(h.id) && u.bytes == t.bytes - joined(
                t.entries[h.id].segments,
            ).len() && u.global == t.global - joined(t.entries[h.id].segments).len()
            &&& forall|k: u32| k != h.id && t.entries.contains_key(k) ==> u.entries.contains_key(k)
                && #[trigger] u.entries[k] == t.entries[k]
        }),
{
    lemma_swept_nothing(t, t.order, now);
}

/// Pieces that are all there but do not add up to the packet's length make no packet.
pub proof fn law_wrong_sum_makes_no_packet(
    t: TableState,
    h: SegmentHeader,
    payload: Seq<u8>,
    now: u64,
)
    requires
        nothing_due(t, now),
        !malformed(h, payload.len()),
        t.entries.contains_key(h.id),
        t.entries[h.id].total == h.total,
        t.entries[h.id].count == h.count,
        t.entries[h.id].segments.len() == h.count,
        t.entries[h.id].segments[h.index as int] is None,
        present(t.entries[h.id].segments) == h.count - 1,
        t.bytes + payload.len() <= 262_144,
        t.global + payload.len() <= t.cap,
    ensures
        ({
            let (u, r) = insert_step(t, h, payload, now);
            let whole = joined(t.entries[h.id].segments.update(h.index as int, Some(payload)));
            let fits = joined(t.entries[h.id].segments).len() + payload.len() == h.total;
            &&& fits ==> r == Inserted::Complete(whole) && whole.len() == h.total
            &&& !fits ==> r == Inserted::Dropped(ReassemblyDrop::Incomplete)
            &&& !u.entries.contains_key(h.id)
            &&& u.bytes == t.bytes - joined(t.entries[h.id].segments).len()
        }),
{
    lemma_swept_nothing(t, t.order, now);
    lemma_fill(t.entries[h.id].segments, h.index as int, payload);
}

/// A peer has at most 32 packets under reassembly: one more takes the place of the oldest.
pub proof fn law_oldest_packet_makes_way(
    t: TableState,
    h: SegmentHeader,
    payload: Seq<u8>,
    now: u64,
)
    requires
        nothing_due(t, now),
        order_ok(t.entries.dom(), t.order),
        !malformed(h, payload.len()),
        !t.entries.contains_key(h.id),
        t.order.len() > 0,
        t.bytes + payload.len() <= 262_144,
        t.global + payload.len() <= t.cap,
    ensures
        ({
            let (u, r) = insert_step(t, h, payload, now);
            let oldest = t.order[0];
            &&& r == Inserted::Pending
            &&& u.entries.contains_key(h.id)
            &&& u.order.last() == h.id
            &&& u.entries.contains_key(oldest) == (t.order.len() < 32)
            &&& forall|k: u32| k != oldest && k != h.id && t.entries.contains_key(k)
                ==> u.entries.contains_key(k) && #[trigger] u.entries[k] == t.entries[k]
            &&& t.order.len() <= 32 ==> u.order.len() <= 32
        }),
{
    lemma_swept_nothing(t, t.order, now);
    let oldest = t.order[0];
    assert(t.order.contains(oldest));
    assert(t.entries.dom().contains(oldest));
    lemma_without(t.order, oldest);
    let none = Seq::new(h.count as nat, |i: int| None::<Seq<u8>>);
    lemma_empty_slots(h.count as nat);
    lemma_fill(none, h.index as int, payload);
}

/// A segment that would take the peer beyond 262144 bytes, or all peers beyond what they may
/// hold together, costs the oldest packet its place; where that is not enough, the segment
/// and its own packet are dropped.
pub proof fn law_no_room_drops_the_packet(
    t: TableState,
    h: SegmentHeader,
    payload: Seq<u8>,
    now: u64,
)
    requires
        nothing_due(t, now),
        !malformed(h, payload.len()),
        t.entries.contains_key(h.id),
        t.entries[h.id].total == h.total,
        t.entries[h.id].count == h.count,
        t.entries[h.id].segments.len() == h.count,
        t.entries[h.id].segments[h.index as int] is None,
        t.order == seq![h.id],
        t.bytes + payload.len() > 262_144 || t.global + payload.len() > t.cap,
    ensures
        ({
            let (u, r) = insert_step(t, h, payload, now);
            &&& r == Inserted::Dropped(ReassemblyDrop::OverBytes)
            &&& !u.entries.contains_key(h.id)
            &&& u.bytes == t.bytes - joined(t.entries[h.id].segments).len()
            &&& u.global == t.global - joined(t.entries[h.id].segments).len()
        }),
{
    lemma_swept_nothing(t, t.order, now);
}

/// What was sent whole comes out whole, with the network it is bound to, and leaves the
/// reassembly alone; what was cut is put together by its header; anything else is refused.
pub proof fn law_datagrams_are_told_apart(
    t: TableState,
    net: u128,
    h: SegmentHeader,
    payload: Seq<u8>,
    data: Seq<u8>,
    now: u64,
)
    requires
        payload.len() > 0,
    ensures
        ({
            let whole = seq![KIND_SINGLE] + crate::frame::big_endian(net as nat, 16) + payload;
            &&& feed_step(t, whole, now) == (t, Fed::Single(net, payload))
        }),
        ({
            let piece = segment_prefix(net, h) + payload;
            &&& !malformed(h, payload.len()) ==> feed_step(t, piece, now) == (
                insert_step(t, h, payload, now).0,
                Fed::Segment(insert_step(t, h, payload, now).1),
            )
        }),
        data.len() == 0 || (data[0] != KIND_SINGLE && data[0] != KIND_SEGMENT) ==> feed_step(
            t,
            data,
            now,
        ) == (t, Fed::Segment(Inserted::Dropped(ReassemblyDrop::Malformed))),
        KIND_SINGLE != KIND_SEGMENT,
{
    crate::frame::law_segment_round_trip(net, h, payload);
    crate::frame::law_single_round_trip(net, payload);
}

} // verus!
