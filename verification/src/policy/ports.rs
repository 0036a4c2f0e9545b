//! Port ranges, sorted and merged.

use super::rules::{covered, PortRange};
use vstd::prelude::*;

verus! {

/// Some interval holds the port.
pub open spec fn held(v: Seq<(u16, u16)>, port: u16) -> bool {
    exists|i: int| 0 <= i < v.len() && (#[trigger] v[i]).0 <= port <= v[i].1
}

/// Lexicographic order of intervals.
pub open spec fn before(a: (u16, u16), b: (u16, u16)) -> bool {
    a.0 < b.0 || (a.0 == b.0 && a.1 <= b.1)
}

pub open spec fn in_order(v: Seq<(u16, u16)>) -> bool {
    forall|i: int, j: int|
        #![trigger v[i], v[j]]
        0 <= i <= j < v.len() ==> before(v[i], v[j])
}

/// Whether some interval holds the port.
pub fn any_holds(v: &[(u16, u16)], port: u16) -> (b: bool)
    ensures
        b == held(v@, port),
{
    let mut i: usize = 0;
    while i < v.len()
        invariant
            i <= v@.len(),
            forall|j: int| 0 <= j < i ==> !((#[trigger] v@[j]).0 <= port <= v@[j].1),
        decreases v.len() - i,
    {
        if v[i].0 <= port && port <= v[i].1 {
            return true;
        }
        i += 1;
    }
    false
}

/// Puts an interval in its place.
fn insert_sorted(v: &mut Vec<(u16, u16)>, e: (u16, u16))
    requires
        in_order(old(v)@),
    ensures
        in_order(final(v)@),
        final(v)@.len() == old(v)@.len() + 1,
        forall|p: u16| held(final(v)@, p) == (held(old(v)@, p) || e.0 <= p <= e.1),
{
    let mut i: usize = v.len();
    while i > 0 && !(v[i - 1].0 < e.0 || (v[i - 1].0 == e.0 && v[i - 1].1 <= e.1))
        invariant
            i <= v@.len(),
            v@ == old(v)@,
            in_order(v@),
            forall|j: int| i <= j < v@.len() ==> before(e, #[trigger] v@[j]),
        decreases i,
    {
        i -= 1;
    }
    let ghost s = v@;
    v.insert(i, e);
    proof {
        let t = v@;
        assert forall|a: int, b: int|
            #![trigger t[a], t[b]]
            0 <= a <= b < t.len() implies before(t[a], t[b]) by {
            if a < i {
                assert(t[a] == s[a]);
                if i > 0 {
                    assert(before(s[a], s[i - 1]));
                }
            } else if a > i {
                assert(t[a] == s[a - 1]);
            }
            if b < i {
                assert(t[b] == s[b]);
            } else if b > i {
                assert(t[b] == s[b - 1]);
            }
        }
        assert forall|p: u16| held(t, p) == (held(s, p) || e.0 <= p <= e.1) by {
            if held(s, p) {
                let k = choose|k: int| 0 <= k < s.len() && (#[trigger] s[k]).0 <= p <= s[k].1;
                assert(t[if k < i { k } else { k + 1 }] == s[k]);
            }
            if e.0 <= p <= e.1 {
                assert(t[i as int] == e);
            }
            if held(t, p) {
                let k = choose|k: int| 0 <= k < t.len() && (#[trigger] t[k]).0 <= p <= t[k].1;
                if k < i {
                    assert(s[k] == t[k]);
                } else if k > i {
                    assert(s[k - 1] == t[k]);
                }
            }
        }
    }
}

/// Intervals that are sorted and do not touch.
pub open spec fn separate(v: Seq<(u16, u16)>) -> bool {
    forall|i: int| 0 <= i < v.len() - 1 ==> (#[trigger] v[i]).1 + 1 < v[i + 1].0
}

/// The ranges as sorted intervals that do not touch; together they hold the same
/// ports.
pub fn merge_ports(ports: &[PortRange]) -> (out: Vec<(u16, u16)>)
    ensures
        out@.len() == 0 <==> ports@.len() == 0,
        separate(out@),
        forall|p: u16| held(out@, p) == covered(ports@, p),
{
    let mut v: Vec<(u16, u16)> = Vec::new();
    let mut i: usize = 0;
    while i < ports.len()
        invariant
            i <= ports@.len(),
            in_order(v@),
            v@.len() == i,
            forall|p: u16| held(v@, p) == covered(ports@.take(i as int), p),
        decreases ports.len() - i,
    {
        let r = ports[i];
        let ghost was = v@;
        insert_sorted(&mut v, (r.start, r.end));
        proof {
            let a = ports@.take(i as int);
            let b = ports@.take(i + 1);
            assert forall|p: u16| held(v@, p) == covered(b, p) by {
                if covered(a, p) {
                    let k = choose|k: int|
                        0 <= k < a.len() && (#[trigger] a[k]).start <= p <= a[k].end;
                    assert(b[k] == a[k]);
                }
                assert(b[i as int] == r);
                if covered(b, p) {
                    let k = choose|k: int|
                        0 <= k < b.len() && (#[trigger] b[k]).start <= p <= b[k].end;
                    if k < i {
                        assert(a[k] == b[k]);
                    }
                }
            }
        }
        i += 1;
    }
    assert(ports@.take(ports@.len() as int) =~= ports@);
    let mut out: Vec<(u16, u16)> = Vec::new();
    if v.len() == 0 {
        return out;
    }
    let mut cur: (u16, u16) = v[0];
    let mut k: usize = 1;
    proof {
        assert forall|p: u16| (held(out@, p) || cur.0 <= p <= cur.1) == held(v@.take(1), p) by {
            assert(v@.take(1)[0] == cur);
        }
    }
    while k < v.len()
        invariant
            1 <= k <= v@.len(),
            in_order(v@),
            separate(out@),
            out@.len() > 0 ==> out@.last().1 + 1 < cur.0,
            cur.0 <= v@[k - 1].0,
            cur.1 >= v@[k - 1].1,
            forall|p: u16|
                (held(out@, p) || cur.0 <= p <= cur.1) == #[trigger] held(v@.take(k as int), p),
        decreases v.len() - k,
    {
        let e = v[k];
        let ghost o0 = out@;
        let ghost c0 = cur;
        assert(before(v@[k - 1], v@[k as int]));
        if e.0 <= cur.1.saturating_add(1) {
            if cur.1 < e.1 {
                cur.1 = e.1;
            }
        } else {
            out.push(cur);
            cur = e;
        }
        proof {
            let a = v@.take(k as int);
            let b = v@.take(k + 1);
            assert forall|p: u16|
                (held(out@, p) || cur.0 <= p <= cur.1) == #[trigger] held(b, p) by {
                assert((held(o0, p) || c0.0 <= p <= c0.1) == held(a, p));
                assert(held(b, p) == (held(a, p) || e.0 <= p <= e.1)) by {
                    if held(a, p) {
                        let q = choose|q: int|
                            0 <= q < a.len() && (#[trigger] a[q]).0 <= p <= a[q].1;
                        assert(b[q] == a[q]);
                    }
                    assert(b[k as int] == e);
                    if held(b, p) {
                        let q = choose|q: int|
                            0 <= q < b.len() && (#[trigger] b[q]).0 <= p <= b[q].1;
                        if q < k {
                            assert(a[q] == b[q]);
                        }
                    }
                }
                if out@.len() > o0.len() {
                    assert(held(out@, p) == (held(o0, p) || c0.0 <= p <= c0.1)) by {
                        if held(o0, p) {
                            let q = choose|q: int|
                                0 <= q < o0.len() && (#[trigger] o0[q]).0 <= p <= o0[q].1;
                            assert(out@[q] == o0[q]);
                        }
                        assert(out@[o0.len() as int] == c0);
                        if held(out@, p) {
                            let q = choose|q: int|
                                0 <= q < out@.len() && (#[trigger] out@[q]).0 <= p <= out@[q].1;
                            if q < o0.len() {
                                assert(o0[q] == out@[q]);
                            }
                        }
                    }
                }
            }
        }
        k += 1;
    }
    assert(v@.take(v@.len() as int) =~= v@);
    let ghost o1 = out@;
    out.push(cur);
    proof {
        assert forall|p: u16| held(out@, p) == covered(ports@, p) by {
            assert((held(o1, p) || cur.0 <= p <= cur.1) == held(v@.take(v@.len() as int), p));
            if held(o1, p) {
                let q = choose|q: int| 0 <= q < o1.len() && (#[trigger] o1[q]).0 <= p <= o1[q].1;
                assert(out@[q] == o1[q]);
            }
            assert(out@[o1.len() as int] == cur);
            if held(out@, p) {
                let q = choose|q: int|
                    0 <= q < out@.len() && (#[trigger] out@[q]).0 <= p <= out@[q].1;
                if q < o1.len() {
                    assert(o1[q] == out@[q]);
                }
            }
        }
    }
    out
}

} // verus!
