//! The networks, in the order in which they were joined, and changes of their members.

use super::types::{NetworkSlice, PeerEntry};
use crate::policy::rules::{holds_text, texts};
use crate::table::{distinct_keys, has_key, lemma_absent, lemma_remove, lemma_slot, map_of};
use crate::text::same_text;
use vstd::prelude::*;

verus! {

/// `a` was joined before `b`; the network id decides where the indices are equal.
pub open spec fn joined_before(a: (u128, NetworkSlice), b: (u128, NetworkSlice)) -> bool {
    a.1.join_index < b.1.join_index || (a.1.join_index == b.1.join_index && a.0 < b.0)
}

pub open spec fn in_join_order(s: Seq<(u128, NetworkSlice)>) -> bool {
    &&& distinct_keys(s)
    &&& forall|i: int, j: int|
        #![trigger s[i], s[j]]
        0 <= i < j < s.len() ==> joined_before(s[i], s[j])
}

/// The place of a network.
pub fn find_slice(s: &[(u128, NetworkSlice)], net: u128) -> (r: Option<usize>)
    requires
        distinct_keys(s@),
    ensures
        r is Some == map_of(s@).dom().contains(net),
        r is Some == has_key(s@, net),
        r matches Some(i) ==> i < s@.len() && s@[i as int].0 == net && s@[i as int].1 == map_of(
            s@,
        )[net],
{
    let mut i: usize = 0;
    while i < s.len()
        invariant
            distinct_keys(s@),
            i <= s@.len(),
            forall|j: int| 0 <= j < i ==> (#[trigger] s@[j]).0 != net,
        decreases s.len() - i,
    {
        if s[i].0 == net {
            proof {
                lemma_slot(s@, i as int);
            }
            return Some(i);
        }
        i += 1;
    }
    None
}

proof fn lemma_remove_keeps_order(s: Seq<(u128, NetworkSlice)>, i: int)
    requires
        in_join_order(s),
        0 <= i < s.len(),
    ensures
        in_join_order(s.remove(i)),
{
    lemma_remove(s, i);
    let t = s.remove(i);
    assert forall|a: int, b: int|
        #![trigger t[a], t[b]]
        0 <= a < b < t.len() implies joined_before(t[a], t[b]) by {
        let x = if a < i {
            a
        } else {
            a + 1
        };
        let y = if b < i {
            b
        } else {
            b + 1
        };
        assert(t[a] == s[x] && t[b] == s[y]);
    }
}

/// Takes a network out.
pub fn take_slice(s: &mut Vec<(u128, NetworkSlice)>, net: u128) -> (r: Option<NetworkSlice>)
    requires
        in_join_order(old(s)@),
    ensures
        in_join_order(final(s)@),
        map_of(final(s)@) == map_of(old(s)@).remove(net),
        !has_key(final(s)@, net),
        r is Some == map_of(old(s)@).dom().contains(net),
        r matches Some(v) ==> v == map_of(old(s)@)[net],
{
    match find_slice(s.as_slice(), net) {
        Some(i) => {
            proof {
                lemma_remove(s@, i as int);
                lemma_remove_keeps_order(s@, i as int);
            }
            let e = s.remove(i);
            Some(e.1)
        },
        None => {
            proof {
                lemma_absent(s@, net);
            }
            None
        },
    }
}

proof fn lemma_insert_is_push(s: Seq<(u128, NetworkSlice)>, i: int, net: u128, v: NetworkSlice)
    requires
        distinct_keys(s),
        !has_key(s, net),
        0 <= i <= s.len(),
    ensures
        distinct_keys(s.insert(i, (net, v))),
        map_of(s.insert(i, (net, v))) == map_of(s).insert(net, v),
{
    let t = s.insert(i, (net, v));
    assert forall|a: int, b: int|
        #![trigger t[a], t[b]]
        0 <= a < t.len() && 0 <= b < t.len() && t[a].0 == t[b].0 implies a == b by {
        if a != i && b != i {
            let x = if a < i {
                a
            } else {
                a - 1
            };
            let y = if b < i {
                b
            } else {
                b - 1
            };
            assert(t[a] == s[x] && t[b] == s[y]);
        } else if a != i {
            let x = if a < i {
                a
            } else {
                a - 1
            };
            assert(t[a] == s[x]);
        } else if b != i {
            let y = if b < i {
                b
            } else {
                b - 1
            };
            assert(t[b] == s[y]);
        }
    }
    assert(t.remove(i) =~= s);
    lemma_remove(t, i);
    lemma_slot(t, i);
    assert(t[i] == (net, v));
    assert(map_of(t) =~= map_of(s).insert(net, v));
}

/// Sets what is known of a network.
pub fn put_slice(s: &mut Vec<(u128, NetworkSlice)>, net: u128, v: NetworkSlice)
    requires
        in_join_order(old(s)@),
    ensures
        in_join_order(final(s)@),
        map_of(final(s)@) == map_of(old(s)@).insert(net, v),
{
    let ghost was = map_of(s@);
    take_slice(s, net);
    let ghost t = s@;
    let mut i: usize = 0;
    while i < s.len() && (s[i].1.join_index < v.join_index || (s[i].1.join_index == v.join_index
        && s[i].0 < net))
        invariant
            s@ == t,
            i <= s@.len(),
            forall|j: int| 0 <= j < i ==> joined_before(#[trigger] t[j], (net, v)),
        decreases s.len() - i,
    {
        i += 1;
    }
    let ghost e = (net, v);
    s.insert(i, (net, v));
    proof {
        lemma_insert_is_push(t, i as int, net, v);
        assert(was.remove(net).insert(net, v) =~= was.insert(net, v));
        let n = s@;
        assert forall|a: int, b: int|
            #![trigger n[a], n[b]]
            0 <= a < b < n.len() implies joined_before(n[a], n[b]) by {
            if a == i {
                assert(n[b] == t[b - 1]);
                assert(t[i as int].0 != net) by {
                    if t[i as int].0 == net {
                        assert(has_key(t, net));
                    }
                }
                if b - 1 > i {
                    assert(joined_before(t[i as int], t[b - 1]));
                }
            } else if b == i {
                assert(n[a] == t[a]);
            } else {
                let x = if a < i {
                    a
                } else {
                    a - 1
                };
                let y = if b < i {
                    b
                } else {
                    b - 1
                };
                assert(n[a] == t[x] && n[b] == t[y]);
            }
        }
    }
}

/// The member stays in a change of membership.
pub open spec fn stays(p: PeerEntry, removed: Seq<Seq<char>>, self_id: Seq<char>) -> bool {
    p.endpoint_id@ != self_id && !removed.contains(p.endpoint_id@)
}

/// The first member with the given endpoint id.
pub open spec fn place_of(ps: Seq<PeerEntry>, id: Seq<char>) -> Option<int>
    decreases ps.len(),
{
    if ps.len() == 0 {
        None
    } else if place_of(ps.drop_last(), id) is Some {
        place_of(ps.drop_last(), id)
    } else if ps.last().endpoint_id@ == id {
        Some(ps.len() - 1)
    } else {
        None
    }
}

/// One more member, in the place of the one that it replaces.
pub open spec fn with_member(ps: Seq<PeerEntry>, p: PeerEntry) -> Seq<PeerEntry> {
    match place_of(ps, p.endpoint_id@) {
        Some(i) => ps.update(i, p),
        None => ps.push(p),
    }
}

/// More members; this node itself is never one of them.
pub open spec fn with_members(ps: Seq<PeerEntry>, added: Seq<PeerEntry>, self_id: Seq<char>) -> Seq<
    PeerEntry,
>
    decreases added.len(),
{
    if added.len() == 0 {
        ps
    } else {
        let b = with_members(ps, added.drop_last(), self_id);
        if added.last().endpoint_id@ == self_id {
            b
        } else {
            with_member(b, added.last())
        }
    }
}

/// The members after a change: those removed leave, then those added come.
pub open spec fn changed(
    ps: Seq<PeerEntry>,
    added: Seq<PeerEntry>,
    removed: Seq<Seq<char>>,
    self_id: Seq<char>,
) -> Seq<PeerEntry> {
    with_members(
        ps.filter(|p: PeerEntry| stays(p, removed, self_id)),
        added,
        self_id,
    )
}

proof fn lemma_place(ps: Seq<PeerEntry>, id: Seq<char>, i: int)
    requires
        0 <= i < ps.len(),
        ps[i].endpoint_id@ == id,
        forall|j: int| 0 <= j < i ==> (#[trigger] ps[j]).endpoint_id@ != id,
    ensures
        place_of(ps, id) == Some(i),
    decreases ps.len(),
{
    if i < ps.len() - 1 {
        lemma_place(ps.drop_last(), id, i);
    } else {
        lemma_no_place(ps.drop_last(), id);
    }
}

proof fn lemma_no_place(ps: Seq<PeerEntry>, id: Seq<char>)
    requires
        forall|j: int| 0 <= j < ps.len() ==> (#[trigger] ps[j]).endpoint_id@ != id,
    ensures
        place_of(ps, id) is None,
    decreases ps.len(),
{
    if ps.len() > 0 {
        assert(ps[ps.len() - 1].endpoint_id@ != id);
        lemma_no_place(ps.drop_last(), id);
    }
}

fn put_member(ps: &mut Vec<PeerEntry>, p: PeerEntry)
    ensures
        final(ps)@ == with_member(old(ps)@, p),
{
    let ghost s = ps@;
    let mut i: usize = 0;
    while i < ps.len()
        invariant
            ps@ == s,
            s == old(ps)@,
            i <= s.len(),
            forall|j: int| 0 <= j < i ==> (#[trigger] s[j]).endpoint_id@ != p.endpoint_id@,
        decreases ps.len() - i,
    {
        if same_text(ps[i].endpoint_id.as_str(), p.endpoint_id.as_str()) {
            proof {
                lemma_place(s, p.endpoint_id@, i as int);
            }
            ps.remove(i);
            ps.insert(i, p);
            assert(ps@ =~= s.update(i as int, p));
            return;
        }
        i += 1;
    }
    proof {
        lemma_no_place(s, p.endpoint_id@);
    }
    ps.push(p);
}

/// Applies a change of membership.
pub fn change_members(
    ps: &mut Vec<PeerEntry>,
    added: Vec<PeerEntry>,
    removed: &[String],
    self_id: &str,
)
    ensures
        final(ps)@ == changed(old(ps)@, added@, texts(removed@), self_id@),
{
    let ghost s = ps@;
    let ghost f = |p: PeerEntry| stays(p, texts(removed@), self_id@);
    let ghost mut k: int = 0;
    let mut i: usize = 0;
    proof {
        reveal(Seq::filter);
        assert(s.take(0).filter(f) =~= Seq::<PeerEntry>::empty());
        assert(ps@ =~= s.take(0).filter(f) + s.skip(0));
    }
    while i < ps.len()
        invariant
            0 <= k <= s.len(),
            f == (|p: PeerEntry| stays(p, texts(removed@), self_id@)),
            i == s.take(k).filter(f).len(),
            ps@ == s.take(k).filter(f) + s.skip(k),
        decreases s.len() - k,
    {
        proof {
            reveal(Seq::filter);
            assert(s.take(k + 1).drop_last() =~= s.take(k));
            assert(ps@[i as int] == s[k]);
        }
        let gone = same_text(ps[i].endpoint_id.as_str(), self_id) || holds_text(
            removed,
            ps[i].endpoint_id.as_str(),
        );
        let ghost before = ps@;
        if gone {
            ps.remove(i);
            assert(ps@ =~= s.take(k + 1).filter(f) + s.skip(k + 1));
        } else {
            i += 1;
            assert(before =~= s.take(k + 1).filter(f) + s.skip(k + 1));
        }
        proof {
            k = k + 1;
        }
    }
    proof {
        assert(k == s.len()) by {
            if k < s.len() {
                assert(ps@.len() > s.take(k).filter(f).len());
            }
        }
        assert(s.take(k) =~= s);
        assert(ps@ =~= s.filter(f));
    }
    let ghost base = ps@;
    let ghost all = added@;
    let mut rest = added;
    let ghost mut n: int = 0;
    assert(all.skip(0) =~= all);
    while rest.len() > 0
        invariant
            0 <= n <= all.len(),
            rest@ == all.skip(n),
            ps@ == with_members(base, all.take(n), self_id@),
        decreases rest@.len(),
    {
        proof {
            assert(all.take(n + 1).drop_last() =~= all.take(n));
            assert(all.take(n + 1).last() == all[n]);
            assert(rest@[0] == all[n]);
        }
        let p = rest.remove(0);
        assert(rest@ =~= all.skip(n + 1));
        if !same_text(p.endpoint_id.as_str(), self_id) {
            put_member(ps, p);
        }
        proof {
            n = n + 1;
        }
    }
    assert(all.take(n) =~= all);
}

} // verus!
