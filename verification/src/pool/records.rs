//! The maps of a pool: connection state and traffic, by peer.

use super::model::{no_extra, ExtraSlot};
use super::slot::PeerSlot;
use crate::endpoint::EndpointId;
use crate::octets::same_bytes;
use vstd::prelude::*;

verus! {

/// The connection state of one peer: on the default protocol, and on others by name.
pub struct PeerRecord {
    pub slot: Option<PeerSlot>,
    pub extra: Vec<(Vec<u8>, ExtraSlot)>,
}

impl PeerRecord {
    pub open spec fn wf(&self) -> bool {
        self.slot matches Some(s) ==> s.wf()
    }

    pub fn new() -> (r: Self)
        ensures
            r.wf(),
            r.slot is None,
            r.extra@.len() == 0,
    {
        PeerRecord { slot: None, extra: Vec::new() }
    }
}

/// The traffic of one peer, and how it is treated.
#[derive(Debug, Clone, Copy, PartialEq, Eq, Structural)]
pub struct PeerTally {
    pub bytes_in: u64,
    pub bytes_out: u64,
    pub keep_alive: bool,
    pub cloud_relay: bool,
}

pub open spec fn no_tally() -> PeerTally {
    PeerTally { bytes_in: 0, bytes_out: 0, keep_alive: false, cloud_relay: false }
}

/// The slot of a protocol, a new one where it has none.
pub open spec fn extra_at(v: Seq<(Vec<u8>, ExtraSlot)>, alpn: Seq<u8>) -> ExtraSlot
    decreases v.len(),
{
    if v.len() == 0 {
        no_extra()
    } else if v[0].0@ == alpn {
        v[0].1
    } else {
        extra_at(v.drop_first(), alpn)
    }
}

/// The place of a protocol's slot.
pub fn find_extra(v: &[(Vec<u8>, ExtraSlot)], alpn: &[u8]) -> (r: Option<usize>)
    ensures
        r is None ==> extra_at(v@, alpn@) == no_extra(),
        r is None ==> forall|j: int| 0 <= j < v@.len() ==> (#[trigger] v@[j]).0@ != alpn@,
        r matches Some(i) ==> i < v@.len() && v@[i as int].0@ == alpn@ && v@[i as int].1
            == extra_at(v@, alpn@) && forall|j: int|
            0 <= j < i ==> (#[trigger] v@[j]).0@ != alpn@,
{
    let mut i: usize = 0;
    assert(v@.skip(0) =~= v@);
    while i < v.len()
        invariant
            i <= v@.len(),
            extra_at(v@, alpn@) == extra_at(v@.skip(i as int), alpn@),
            forall|j: int| 0 <= j < i ==> (#[trigger] v@[j]).0@ != alpn@,
        decreases v.len() - i,
    {
        proof {
            assert(v@.skip(i as int)[0] == v@[i as int]);
            assert(v@.skip(i as int).drop_first() =~= v@.skip(i + 1));
        }
        if same_bytes(v[i].0.as_slice(), alpn) {
            return Some(i);
        }
        i += 1;
    }
    None
}

proof fn lemma_extra_at_first(v: Seq<(Vec<u8>, ExtraSlot)>, alpn: Seq<u8>, i: int)
    requires
        0 <= i <= v.len(),
        forall|j: int| 0 <= j < i ==> (#[trigger] v[j]).0@ != alpn,
    ensures
        extra_at(v, alpn) == extra_at(v.skip(i), alpn),
    decreases i,
{
    if i == 0 {
        assert(v.skip(0) =~= v);
    } else {
        lemma_extra_at_first(v, alpn, i - 1);
        assert(v.skip(i - 1)[0] == v[i - 1]);
        assert(v.skip(i - 1).drop_first() =~= v.skip(i));
    }
}

proof fn lemma_extra_update(
    v: Seq<(Vec<u8>, ExtraSlot)>,
    w: Seq<(Vec<u8>, ExtraSlot)>,
    i: int,
    alpn: Seq<u8>,
    other: Seq<u8>,
)
    requires
        0 <= i < v.len(),
        w.len() == v.len(),
        v[i].0@ == alpn,
        w[i].0@ == alpn,
        forall|j: int| 0 <= j < v.len() && j != i ==> w[j] == v[j],
        other != alpn,
    ensures
        extra_at(w, other) == extra_at(v, other),
    decreases v.len(),
{
    if i == 0 {
        assert(w.drop_first() =~= v.drop_first());
    } else {
        assert(w[0] == v[0]);
        let v2 = v.drop_first();
        let w2 = w.drop_first();
        assert forall|j: int| 0 <= j < v2.len() && j != i - 1 implies w2[j] == v2[j] by {
            assert(w[j + 1] == v[j + 1]);
        }
        lemma_extra_update(v2, w2, i - 1, alpn, other);
    }
}

proof fn lemma_extra_push(
    v: Seq<(Vec<u8>, ExtraSlot)>,
    e: (Vec<u8>, ExtraSlot),
    other: Seq<u8>,
)
    ensures
        other != e.0@ ==> extra_at(v.push(e), other) == extra_at(v, other),
        (forall|j: int| 0 <= j < v.len() ==> (#[trigger] v[j]).0@ != e.0@) ==> extra_at(
            v.push(e),
            e.0@,
        ) == e.1,
    decreases v.len(),
{
    if v.len() == 0 {
        assert(v.push(e).drop_first() =~= v);
    } else {
        assert(v.push(e).drop_first() =~= v.drop_first().push(e));
        lemma_extra_push(v.drop_first(), e, other);
        if forall|j: int| 0 <= j < v.len() ==> (#[trigger] v[j]).0@ != e.0@ {
            assert(v[0].0@ != e.0@);
            let t = v.drop_first();
            assert forall|j: int| 0 <= j < t.len() implies (#[trigger] t[j]).0@ != e.0@ by {
                assert(v[j + 1].0@ != e.0@);
            }
        }
    }
}

/// Sets the slot of a protocol.
pub fn put_extra(v: &mut Vec<(Vec<u8>, ExtraSlot)>, alpn: &[u8], s: ExtraSlot)
    ensures
        extra_at(final(v)@, alpn@) == s,
        forall|other: Seq<u8>| other != alpn@ ==> #[trigger] extra_at(final(v)@, other) == extra_at(
            old(v)@,
            other,
        ),
{
    let ghost was = v@;
    match find_extra(v.as_slice(), alpn) {
        Some(i) => {
            let e = v.remove(i);
            v.insert(i, (e.0, s));
            proof {
                let now = v@;
                assert forall|j: int| 0 <= j < was.len() && j != i implies now[j] == was[j] by {}
                assert forall|j: int| 0 <= j < i implies (#[trigger] now[j]).0@ != alpn@ by {
                    assert(was[j].0@ != alpn@);
                }
                lemma_extra_at_first(now, alpn@, i as int);
                assert(now.skip(i as int)[0] == now[i as int]);
                assert forall|other: Seq<u8>| other != alpn@ implies #[trigger] extra_at(
                    now,
                    other,
                ) == extra_at(was, other) by {
                    lemma_extra_update(was, now, i as int, alpn@, other);
                }
            }
        },
        None => {
            let mut name: Vec<u8> = Vec::new();
            crate::octets::append(&mut name, alpn);
            assert(name@ =~= alpn@);
            let ghost e = (name, s);
            v.push((name, s));
            proof {
                lemma_extra_push(was, e, alpn@);
                assert forall|other: Seq<u8>| other != alpn@ implies #[trigger] extra_at(
                    v@,
                    other,
                ) == extra_at(was, other) by {
                    lemma_extra_push(was, e, other);
                }
            }
        },
    }
}

/// The peers that a map holds.
pub uninterp spec fn records_of(m: dashmap::DashMap<(u128, u128), PeerRecord>) -> Map<
    (u128, u128),
    PeerRecord,
>;

pub open spec fn no_records() -> Map<EndpointId, PeerRecord> {
    Map::empty()
}

/// The keys of a map, each once.
pub open spec fn lists<V>(keys: Seq<EndpointId>, m: Map<EndpointId, V>) -> bool {
    keys.no_duplicates() && forall|k: EndpointId| #[trigger]
        m.dom().contains(k) == keys.contains(k)
}

/// `DashMap::new` makes an empty map.
#[verifier::external_body]
pub(crate) fn records_new() -> (m: dashmap::DashMap<(u128, u128), PeerRecord>)
    ensures
        records_of(m) == no_records(),
{
    dashmap::DashMap::new()
}

/// `DashMap::remove` removes a key, hands out its value, and leaves the other keys alone.
#[verifier::external_body]
pub(crate) fn records_take(
    m: &mut dashmap::DashMap<(u128, u128), PeerRecord>,
    peer: (u128, u128),
) -> (r: Option<PeerRecord>)
    ensures
        records_of(*final(m)) == records_of(*old(m)).remove(peer),
        r == (if records_of(*old(m)).dom().contains(peer) {
            Some(records_of(*old(m))[peer])
        } else {
            None
        }),
{
    m.remove(&peer).map(|e| e.1)
}

/// `DashMap::insert` sets the value of a key, and leaves the other keys alone.
#[verifier::external_body]
pub(crate) fn records_put(
    m: &mut dashmap::DashMap<(u128, u128), PeerRecord>,
    peer: (u128, u128),
    r: PeerRecord,
)
    ensures
        records_of(*final(m)) == records_of(*old(m)).insert(peer, r),
{
    m.insert(peer, r);
}

/// `DashMap::iter` walks the entries, each once and in no fixed order; the keys are
/// copied out.
#[verifier::external_body]
pub(crate) fn records_keys(m: &dashmap::DashMap<(u128, u128), PeerRecord>) -> (v: Vec<(u128, u128)>)
    ensures
        lists(v@, records_of(*m)),
{
    m.iter().map(|e| *e.key()).collect()
}

/// The tallies that a map holds.
pub uninterp spec fn tallies_of(m: dashmap::DashMap<(u128, u128), PeerTally>) -> Map<
    (u128, u128),
    PeerTally,
>;

pub open spec fn no_tallies() -> Map<EndpointId, PeerTally> {
    Map::empty()
}

/// `DashMap::new` makes an empty map.
#[verifier::external_body]
pub(crate) fn tallies_new() -> (m: dashmap::DashMap<(u128, u128), PeerTally>)
    ensures
        tallies_of(m) == no_tallies(),
{
    dashmap::DashMap::new()
}

/// `DashMap::get` finds the value of a key; it is copied out of the guard.
#[verifier::external_body]
pub(crate) fn tallies_get(
    m: &dashmap::DashMap<(u128, u128), PeerTally>,
    peer: (u128, u128),
) -> (r: Option<PeerTally>)
    ensures
        r == (if tallies_of(*m).dom().contains(peer) {
            Some(tallies_of(*m)[peer])
        } else {
            None
        }),
{
    m.get(&peer).map(|e| *e)
}

/// `DashMap::insert` sets the value of a key, and leaves the other keys alone.
#[verifier::external_body]
pub(crate) fn tallies_put(
    m: &mut dashmap::DashMap<(u128, u128), PeerTally>,
    peer: (u128, u128),
    t: PeerTally,
)
    ensures
        tallies_of(*final(m)) == tallies_of(*old(m)).insert(peer, t),
{
    m.insert(peer, t);
}

/// `DashMap::iter` walks the entries, each once and in no fixed order; the keys are
/// copied out.
#[verifier::external_body]
pub(crate) fn tallies_keys(m: &dashmap::DashMap<(u128, u128), PeerTally>) -> (v: Vec<(u128, u128)>)
    ensures
        lists(v@, tallies_of(*m)),
{
    m.iter().map(|e| *e.key()).collect()
}

} // verus!
