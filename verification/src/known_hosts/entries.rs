//! The entries of the `known_hosts` file.

use super::{
    after_word, file_text, first_word, has_key, host_names, joined_with, line_for, line_stays,
    listed, names_of, overlaps, peer_line, run_of, undotted, undotted_front, PeerEntry,
};
use crate::ip::dotted_quad;
use crate::text::{dotted, is_space, lemma_place, parts, trimmed, trimmed_front, without_dots};
use vstd::prelude::*;

verus! {

/// A word: not empty, and without whitespace.
pub open spec fn solid(s: Seq<char>) -> bool {
    s.len() > 0 && forall|i: int| 0 <= i < s.len() ==> !is_space(#[trigger] s[i])
}

/// A run of solid characters ends at the first whitespace.
proof fn lemma_run_ends(w: Seq<char>, t: Seq<char>)
    requires
        solid(w),
        t.len() > 0 ==> is_space(t[0]),
    ensures
        run_of(w + t) == w,
    decreases w.len(),
{
    let s = w + t;
    assert(s[0] == w[0]);
    let d = w.drop_first();
    assert(s.drop_first() =~= d + t);
    if d.len() > 0 {
        assert forall|i: int| 0 <= i < d.len() implies !is_space(#[trigger] d[i]) by {
            assert(d[i] == w[i + 1]);
        }
        lemma_run_ends(d, t);
    } else {
        assert(d + t =~= t);
        reveal_with_fuel(run_of, 2);
    }
    assert(seq![w[0]] + d =~= w);
}

/// The line of a host: its names with commas between them, a space, the kind of the key, a
/// space, and the key. A comment behind the key is left out.
pub proof fn law_line_of_a_host(
    a: Seq<char>,
    b: Seq<char>,
    kind: Seq<char>,
    data: Seq<char>,
    comment: Seq<char>,
)
    requires
        solid(a),
        solid(b),
        a != b,
        solid(kind),
        solid(data),
        solid(comment),
    ensures
        line_for(seq![a, b], kind + seq![' '] + data) == Some(
            a + seq![','] + b + seq![' '] + kind + seq![' '] + data,
        ),
        line_for(seq![a], kind + seq![' '] + data + seq![' '] + comment) == Some(
            a + seq![' '] + kind + seq![' '] + data,
        ),
        line_for(seq![a, b, a], kind + seq![' '] + data) == line_for(
            seq![a, b],
            kind + seq![' '] + data,
        ),
        line_for(Seq::empty(), kind + seq![' '] + data) is None,
        line_for(seq![a], kind) is None,
{
    let e = Seq::<char>::empty();
    lemma_names(a, b);
    lemma_key_words(kind, data, e);
    lemma_key_words(kind, data, seq![' '] + comment);
    let k = kind + seq![' '] + data;
    assert(k + e =~= k);
    assert(!is_space(kind[0]) && !is_space(data[data.len() - 1]) && !is_space(
        comment[comment.len() - 1],
    ));
    assert(k[0] == kind[0] && k.last() == data.last());
    assert(trimmed(k) == k);
    let kc = kind + seq![' '] + data + seq![' '] + comment;
    assert(kc =~= k + (seq![' '] + comment));
    assert(kc[0] == kind[0] && kc.last() == comment.last());
    assert(trimmed(kc) == kc);
    assert(a + seq![','] + b + seq![' '] + kind + seq![' '] + data =~= (a.push(',') + b).push(' ')
        + kind.push(' ') + data);
    assert(a + seq![' '] + kind + seq![' '] + data =~= a.push(' ') + kind.push(' ') + data);
    assert(!is_space(kind[kind.len() - 1]));
    assert(trimmed(kind) == kind);
    lemma_run_ends(kind, e);
    assert(kind + e =~= kind);
    assert(after_word(kind) =~= e);
    assert(run_of(trimmed_front(e)).len() == 0);
}

proof fn lemma_key_words(kind: Seq<char>, data: Seq<char>, rest: Seq<char>)
    requires
        solid(kind),
        solid(data),
        rest.len() > 0 ==> is_space(rest[0]),
    ensures
        first_word(kind + seq![' '] + data + rest) == kind,
        first_word(after_word(kind + seq![' '] + data + rest)) == data,
{
    let k = kind + seq![' '] + data + rest;
    let t = seq![' '] + data + rest;
    assert(k =~= kind + t);
    assert(k[0] == kind[0]);
    assert(!is_space(kind[0]));
    lemma_run_ends(kind, t);
    assert(after_word(k) =~= t);
    assert(t.drop_first() =~= data + rest);
    assert((data + rest)[0] == data[0]);
    assert(!is_space(data[0]));
    reveal_with_fuel(trimmed_front, 3);
    lemma_run_ends(data, rest);
}

proof fn lemma_names(a: Seq<char>, b: Seq<char>)
    requires
        solid(a),
        solid(b),
        a != b,
    ensures
        joined_with(host_names(seq![a]), ',') == a,
        joined_with(host_names(seq![a, b]), ',') == a.push(',') + b,
        host_names(seq![a, b, a]) == host_names(seq![a, b]),
        host_names(seq![a]).len() == 1,
        host_names(seq![a, b]).len() == 2,
        host_names(Seq::empty()).len() == 0,
{
    assert(!is_space(a[0]) && !is_space(a[a.len() - 1]));
    assert(!is_space(b[0]) && !is_space(b[b.len() - 1]));
    assert(trimmed(a) == a);
    assert(trimmed(b) == b);
    let e = Seq::<Seq<char>>::empty();
    assert(seq![a].drop_last() =~= e);
    assert(seq![a, b].drop_last() =~= seq![a]);
    assert(seq![a, b, a].drop_last() =~= seq![a, b]);
    assert(host_names(e) =~= e);
    assert(host_names(seq![a]) =~= seq![a]);
    assert(!seq![a].contains(b));
    assert(host_names(seq![a, b]) =~= seq![a, b]);
    assert(seq![a, b][0] == a);
    assert(seq![a, b].contains(a));
    reveal_with_fuel(joined_with, 3);
}

/// The names of a host: each once, without the whitespace around it, and no empty one.
pub proof fn law_names_of_a_host(hosts: Seq<Seq<char>>, n: Seq<char>)
    ensures
        host_names(hosts).contains(n) <==> n.len() > 0 && exists|i: int|
            0 <= i < hosts.len() && trimmed(#[trigger] hosts[i]) == n,
        host_names(hosts).no_duplicates(),
    decreases hosts.len(),
{
    if hosts.len() > 0 {
        let d = hosts.drop_last();
        let h = trimmed(hosts.last());
        let r = host_names(d);
        law_names_of_a_host(d, n);
        law_names_of_a_host(d, h);
        let v = host_names(hosts);
        if v.contains(n) {
            if n != h {
                let k = choose|k: int| 0 <= k < v.len() && v[k] == n;
                assert(r.contains(n)) by {
                    assert(r[k] == n);
                }
                let i = choose|i: int| 0 <= i < d.len() && trimmed(#[trigger] d[i]) == n;
                assert(hosts[i] == d[i]);
            } else {
                assert(trimmed(hosts[hosts.len() - 1]) == n);
                if h.len() == 0 {
                    assert(r.contains(n));
                }
            }
        }
        if n.len() > 0 && exists|i: int| 0 <= i < hosts.len() && trimmed(#[trigger] hosts[i]) == n {
            let i = choose|i: int| 0 <= i < hosts.len() && trimmed(#[trigger] hosts[i]) == n;
            if i < d.len() {
                assert(trimmed(d[i]) == n);
                let k = choose|k: int| 0 <= k < r.len() && r[k] == n;
                assert(v[k] == n);
            } else if !r.contains(h) {
                assert(v[r.len() as int] == n);
            }
        }
        if h.len() > 0 && !r.contains(h) {
            assert forall|i: int, j: int| 0 <= i < j < v.len() implies v[i] != v[j] by {
                if j == r.len() {
                    assert(r[i] == v[i]);
                } else {
                    assert(r[i] != r[j]);
                }
            }
        }
    }
}

/// A line of the file stays unless one of its names, which commas part, is one of the
/// host's. Comments stay.
pub proof fn law_lines_of_others_stay(
    a: Seq<char>,
    b: Seq<char>,
    rest: Seq<char>,
    hosts: Seq<Seq<char>>,
)
    requires
        solid(a),
        solid(b),
        a[0] != '#',
        !a.contains(','),
        !b.contains(','),
    ensures
        line_stays(a + seq![' '] + rest, hosts) == !hosts.contains(a),
        line_stays(a + seq![','] + b + seq![' '] + rest, hosts) == !(hosts.contains(a)
            || hosts.contains(b)),
        line_stays(seq!['#'] + rest, hosts),
        line_stays(Seq::empty(), hosts),
{
    let t = seq![' '] + rest;
    lemma_run_ends(a, t);
    assert(a + seq![' '] + rest =~= a + t);
    let ab = a + seq![','] + b;
    assert forall|i: int| 0 <= i < ab.len() implies !is_space(#[trigger] ab[i]) by {
        if i < a.len() {
            assert(ab[i] == a[i]);
        } else if i > a.len() {
            assert(ab[i] == b[i - a.len() - 1]);
        }
    }
    lemma_run_ends(ab, t);
    assert(a + seq![','] + b + seq![' '] + rest =~= ab + t);
    assert((a + t)[0] == a[0]);
    assert((ab + t)[0] == a[0]);
    lemma_whole(a);
    lemma_whole(b);
    let p = parts(ab, ',');
    assert forall|j: int| 0 <= j < a.len() implies ab[j] != ',' by {
        assert(ab[j] == a[j]);
        assert(a.contains(a[j]));
    }
    lemma_place(ab, ',', a.len() as int);
    assert(ab.take(a.len() as int) =~= a);
    assert(ab.skip(a.len() as int + 1) =~= b);
    assert(p =~= seq![a, b]);
    assert(p[0] == a && p[1] == b);
    assert(parts(a, ',')[0] == a);
    assert((seq!['#'] + rest)[0] == '#');
    if overlaps(ab, hosts) {
        let i = choose|i: int| 0 <= i < p.len() && hosts.contains(#[trigger] p[i]);
        assert(i == 0 || i == 1);
    }
    if overlaps(a, hosts) {
        let i = choose|i: int|
            0 <= i < parts(a, ',').len() && hosts.contains(#[trigger] parts(a, ',')[i]);
        assert(i == 0);
    }
}

proof fn lemma_whole(a: Seq<char>)
    requires
        !a.contains(','),
    ensures
        parts(a, ',') == seq![a],
{
    assert forall|j: int| 0 <= j < a.len() implies #[trigger] a[j] != ',' by {
        assert(a.contains(a[j]));
    }
    lemma_place(a, ',', a.len() as int);
    assert(parts(a, ',') =~= seq![a]);
}

/// Of the keys of an endpoint the last one counts; a peer without a key has no line.
pub proof fn law_last_key_counts(peers: Seq<PeerEntry>, i: int, j: int)
    requires
        0 <= i < j < peers.len(),
    ensures
        has_key(peers[j]) && peers[i].endpoint_id@ == peers[j].endpoint_id@ ==> !listed(peers, i),
        j == peers.len() - 1 && has_key(peers[j]) ==> listed(peers, j),
        peers[i].ssh_host_key is None ==> !listed(peers, i) && peer_line(peers[i], Seq::empty()) is
            None,
{
}

/// The names of a peer: its address, its hostname, and the hostname under the suffix, which
/// may be written with dots around it.
pub proof fn law_names_of_a_peer(p: PeerEntry, suffix: Seq<char>)
    requires
        suffix.len() > 0,
        suffix[0] != '.',
        suffix.last() != '.',
        p.hostname@.len() > 0,
    ensures
        names_of(p, suffix) == seq![dotted_quad(p.ip), p.hostname@, p.hostname@ + seq!['.'] + suffix],
        names_of(p, seq!['.'] + suffix + seq!['.']) == names_of(p, suffix),
{
    let s = seq!['.'] + suffix + seq!['.'];
    let t = suffix + seq!['.'];
    assert(s.drop_first() =~= t);
    assert(t[0] == suffix[0]);
    assert(t.drop_last() =~= suffix);
    reveal_with_fuel(undotted_front, 3);
    reveal_with_fuel(without_dots, 3);
    assert(undotted(s) == suffix);
    assert(undotted(suffix) == suffix);
    assert(dotted(p.hostname@, suffix) =~= p.hostname@ + seq!['.'] + suffix);
}

/// The lines of a file end with a line end each.
pub proof fn law_lines_are_ended(v: Seq<Seq<char>>, l: Seq<char>)
    requires
        l.len() > 0,
        v.len() > 0 ==> v[0].len() > 0,
    ensures
        file_text(v.push(l)) == file_text(v) + l + seq!['\n'],
        file_text(Seq::empty()) == Seq::<char>::empty(),
{
    let w = v.push(l);
    assert(w.drop_last() =~= v);
    assert(w.last() == l);
    if v.len() == 0 {
        assert(file_text(w) =~= file_text(v) + l + seq!['\n']);
    } else {
        lemma_joined_long(v);
        assert(file_text(w) =~= file_text(v) + l + seq!['\n']);
    }
}

proof fn lemma_joined_long(v: Seq<Seq<char>>)
    requires
        v.len() > 0,
        v[0].len() > 0,
    ensures
        joined_with(v, '\n').len() > 0,
{
}

} // verus!
