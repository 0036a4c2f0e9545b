//! What holds of the `known_hosts` file over several changes.

use super::{
    after_word, file_text, first_word, host_names, in_line_order, is_kept, joined_with, line_for,
    line_stays, lines_of, run_of,
};
use crate::ipc::order::{lemma_before_order, text_before};
use crate::text::{
    is_space, lemma_place, parts, place_of_char, trimmed, trimmed_back, trimmed_front,
};
use vstd::prelude::*;

verus! {

/// `after` is what an existing file becomes with the line of a host.
pub open spec fn upserted(
    existing: Seq<char>,
    hosts: Seq<Seq<char>>,
    key: Seq<char>,
    after: Seq<char>,
) -> bool {
    exists|v: Seq<Seq<char>>| #[trigger]
        in_line_order(v) && after == file_text(v) && forall|l: Seq<char>| #[trigger]
            v.contains(l) == (is_kept(existing, hosts, l) || Some(l) == line_for(hosts, key))
}

/// The text is on one line.
pub open spec fn unbroken(s: Seq<char>) -> bool {
    forall|i: int| 0 <= i < s.len() ==> #[trigger] s[i] != '\n'
}

/// There is no whitespace at its ends.
pub open spec fn tight(s: Seq<char>) -> bool {
    s.len() > 0 ==> !is_space(s[0]) && !is_space(s.last())
}

proof fn lemma_tight(s: Seq<char>)
    requires
        tight(s),
    ensures
        trimmed(s) == s,
{
}

proof fn lemma_trimmed_back(s: Seq<char>)
    ensures
        trimmed_back(s).len() <= s.len(),
        trimmed_back(s) == s.take(trimmed_back(s).len() as int),
        trimmed_back(s).len() > 0 ==> !is_space(trimmed_back(s).last()),
    decreases s.len(),
{
    if s.len() > 0 && is_space(s.last()) {
        lemma_trimmed_back(s.drop_last());
        assert(s.drop_last().take(trimmed_back(s).len() as int) =~= s.take(
            trimmed_back(s).len() as int,
        ));
    } else {
        assert(s.take(s.len() as int) =~= s);
    }
}

proof fn lemma_trimmed_front(s: Seq<char>)
    ensures
        trimmed_front(s).len() <= s.len(),
        trimmed_front(s) == s.skip(s.len() - trimmed_front(s).len()),
        trimmed_front(s).len() > 0 ==> !is_space(trimmed_front(s)[0]),
    decreases s.len(),
{
    if s.len() > 0 && is_space(s[0]) {
        lemma_trimmed_front(s.drop_first());
        let n = trimmed_front(s).len() as int;
        assert(s.drop_first().skip(s.len() - 1 - n) =~= s.skip(s.len() - n));
    } else {
        assert(s.skip(0) =~= s);
    }
}

proof fn lemma_trimmed(s: Seq<char>)
    ensures
        tight(trimmed(s)),
        unbroken(s) ==> unbroken(trimmed(s)),
{
    let f = trimmed_front(s);
    let t = trimmed(s);
    lemma_trimmed_front(s);
    lemma_trimmed_back(f);
    if t.len() > 0 {
        assert(t[0] == f[0]);
    }
    if unbroken(s) {
        assert forall|i: int| 0 <= i < t.len() implies #[trigger] t[i] != '\n' by {
            assert(t[i] == f[i]);
            assert(f[i] == s[s.len() - f.len() + i]);
        }
    }
}

proof fn lemma_place_first(s: Seq<char>, c: char)
    ensures
        0 <= place_of_char(s, c) <= s.len(),
        forall|j: int| 0 <= j < place_of_char(s, c) ==> #[trigger] s[j] != c,
    decreases s.len(),
{
    if s.len() > 0 && s[0] != c {
        let t = s.drop_first();
        lemma_place_first(t, c);
        assert forall|j: int| 0 <= j < place_of_char(s, c) implies #[trigger] s[j] != c by {
            if j > 0 {
                assert(t[j - 1] == s[j]);
            }
        }
    }
}

proof fn lemma_parts_unbroken(s: Seq<char>)
    ensures
        forall|i: int| 0 <= i < parts(s, '\n').len() ==> unbroken(#[trigger] parts(s, '\n')[i]),
    decreases s.len(),
{
    let n = place_of_char(s, '\n');
    let p = parts(s, '\n');
    lemma_place_first(s, '\n');
    if n < s.len() {
        let t = s.skip(n + 1);
        lemma_parts_unbroken(t);
        assert forall|i: int| 0 <= i < p.len() implies unbroken(#[trigger] p[i]) by {
            if i == 0 {
                assert(p[0] == s.take(n));
            } else {
                assert(p[i] == parts(t, '\n')[i - 1]);
            }
        }
    }
}

/// Lines with an end behind each.
spec fn ended(v: Seq<Seq<char>>) -> Seq<char>
    decreases v.len(),
{
    if v.len() == 0 {
        Seq::empty()
    } else {
        v[0].push('\n') + ended(v.drop_first())
    }
}

proof fn lemma_ended_push(v: Seq<Seq<char>>, x: Seq<char>)
    ensures
        ended(v.push(x)) == ended(v) + x.push('\n'),
    decreases v.len(),
{
    if v.len() == 0 {
        assert(v.push(x).drop_first() =~= v);
        assert(ended(v.push(x)) =~= ended(v) + x.push('\n'));
    } else {
        lemma_ended_push(v.drop_first(), x);
        assert(v.push(x).drop_first() =~= v.drop_first().push(x));
        assert(v.push(x)[0] == v[0]);
        assert(ended(v.push(x)) =~= ended(v) + x.push('\n'));
    }
}

proof fn lemma_joined_ended(v: Seq<Seq<char>>)
    requires
        v.len() > 0,
    ensures
        joined_with(v, '\n').push('\n') == ended(v),
    decreases v.len(),
{
    let d = v.drop_last();
    assert(d.push(v.last()) =~= v);
    lemma_ended_push(d, v.last());
    if v.len() == 1 {
        assert(ended(d) + v.last().push('\n') =~= v[0].push('\n'));
    } else {
        lemma_joined_ended(d);
        assert(joined_with(v, '\n').push('\n') =~= joined_with(d, '\n').push('\n')
            + v.last().push('\n'));
    }
}

proof fn lemma_parts_ended(v: Seq<Seq<char>>)
    requires
        forall|i: int| 0 <= i < v.len() ==> unbroken(#[trigger] v[i]),
    ensures
        parts(ended(v), '\n') == v.push(Seq::empty()),
    decreases v.len(),
{
    let s = ended(v);
    if v.len() == 0 {
        lemma_place_first(s, '\n');
        assert(parts(s, '\n') =~= v.push(Seq::empty()));
    } else {
        let n = v[0].len() as int;
        let d = v.drop_first();
        assert forall|i: int| 0 <= i < d.len() implies unbroken(#[trigger] d[i]) by {
            assert(d[i] == v[i + 1]);
        }
        lemma_parts_ended(d);
        assert(unbroken(v[0]));
        assert forall|j: int| 0 <= j < n implies s[j] != '\n' by {
            assert(s[j] == v[0][j]);
        }
        lemma_place(s, '\n', n);
        assert(s.take(n) =~= v[0]);
        assert(s.skip(n + 1) =~= ended(d));
        assert(parts(s, '\n') =~= v.push(Seq::empty()));
    }
}

/// The lines of a file are those it was made of.
proof fn lemma_file_lines(v: Seq<Seq<char>>, l: Seq<char>)
    requires
        forall|i: int| 0 <= i < v.len() ==> unbroken(#[trigger] v[i]),
        v.contains(l),
        l.len() > 0,
    ensures
        lines_of(file_text(v)) == v,
{
    lemma_joined_ended(v);
    lemma_parts_ended(v);
    let k = choose|k: int| 0 <= k < v.len() && v[k] == l;
    lemma_ended_long(v, k);
    assert(joined_with(v, '\n').len() > 0);
    assert(v.push(Seq::empty()).drop_last() =~= v);
}

proof fn lemma_ended_long(v: Seq<Seq<char>>, k: int)
    requires
        0 <= k < v.len(),
    ensures
        ended(v).len() > v[k].len(),
    decreases v.len(),
{
    if k > 0 {
        lemma_ended_long(v.drop_first(), k - 1);
    }
}

/// The last of lines in order is behind every other one.
proof fn lemma_last_line(v: Seq<Seq<char>>, l: Seq<char>)
    requires
        in_line_order(v),
        v.contains(l),
    ensures
        l == v.last() || text_before(l, v.last()),
        in_line_order(v.drop_last()),
        v.drop_last().contains(l) == (l != v.last()),
{
    let d = v.drop_last();
    let k = choose|k: int| 0 <= k < v.len() && v[k] == l;
    if k < v.len() - 1 {
        assert(text_before(v[k], v[v.len() - 1]));
        assert(d[k] == l);
        lemma_before_order(l, l, l);
    }
    if d.contains(l) {
        let j = choose|j: int| 0 <= j < d.len() && d[j] == l;
        assert(text_before(v[j], v[v.len() - 1]));
        lemma_before_order(l, l, l);
    }
    assert forall|i: int, j: int|
        #![trigger d[i], d[j]]
        0 <= i < j < d.len() implies text_before(d[i], d[j]) by {
        assert(text_before(v[i], v[j]));
    }
}

/// Lines in order are fixed by which lines they are.
proof fn lemma_same_lines(v: Seq<Seq<char>>, w: Seq<Seq<char>>)
    requires
        in_line_order(v),
        in_line_order(w),
        forall|l: Seq<char>| v.contains(l) == #[trigger] w.contains(l),
    ensures
        v == w,
    decreases v.len(),
{
    if v.len() == 0 {
        if w.len() > 0 {
            assert(w.contains(w[0]));
        }
        assert(v =~= w);
    } else {
        let (a, b) = (v.last(), w.last());
        assert(v[v.len() - 1] == a);
        assert(v.contains(a));
        assert(w.contains(a));
        assert(w.len() > 0);
        assert(w[w.len() - 1] == b);
        assert(w.contains(b));
        assert(v.contains(b));
        lemma_last_line(v, b);
        lemma_last_line(w, a);
        lemma_before_order(a, b, a);
        assert(a == b);
        let (d, e) = (v.drop_last(), w.drop_last());
        assert forall|l: Seq<char>| d.contains(l) == #[trigger] e.contains(l) by {
            if d.contains(l) {
                let k = choose|k: int| 0 <= k < d.len() && d[k] == l;
                assert(v[k] == l);
            }
            if e.contains(l) {
                let k = choose|k: int| 0 <= k < e.len() && e[k] == l;
                assert(w[k] == l);
            }
            assert(v.contains(l) == w.contains(l));
            if v.contains(l) {
                lemma_last_line(v, l);
                lemma_last_line(w, l);
            }
        }
        lemma_last_line(v, a);
        lemma_last_line(w, b);
        lemma_same_lines(d, e);
        assert(d.push(a) =~= v);
        assert(e.push(b) =~= w);
    }
}

proof fn lemma_run_solid(s: Seq<char>)
    ensures
        forall|i: int| 0 <= i < run_of(s).len() ==> !is_space(#[trigger] run_of(s)[i]),
    decreases s.len(),
{
    if s.len() > 0 && !is_space(s[0]) {
        let t = s.drop_first();
        lemma_run_solid(t);
        assert forall|i: int| 0 <= i < run_of(s).len() implies !is_space(
            #[trigger] run_of(s)[i],
        ) by {
            if i > 0 {
                assert(run_of(s)[i] == run_of(t)[i - 1]);
            }
        }
    }
}

proof fn lemma_host_names(hosts: Seq<Seq<char>>)
    requires
        forall|i: int| 0 <= i < hosts.len() ==> unbroken(#[trigger] hosts[i]),
    ensures
        forall|i: int|
            0 <= i < host_names(hosts).len() ==> unbroken(#[trigger] host_names(hosts)[i]) && tight(
                host_names(hosts)[i],
            ) && host_names(hosts)[i].len() > 0,
    decreases hosts.len(),
{
    if hosts.len() > 0 {
        let d = hosts.drop_last();
        assert forall|i: int| 0 <= i < d.len() implies unbroken(#[trigger] d[i]) by {
            assert(d[i] == hosts[i]);
        }
        lemma_host_names(d);
        assert(unbroken(hosts[hosts.len() - 1]));
        lemma_trimmed(hosts.last());
        let (r, n) = (host_names(d), host_names(hosts));
        assert forall|i: int| 0 <= i < n.len() implies unbroken(#[trigger] n[i]) && tight(n[i])
            && n[i].len() > 0 by {
            if i < r.len() {
                assert(n[i] == r[i]);
            }
        }
    }
}

proof fn lemma_joined_names(v: Seq<Seq<char>>)
    requires
        v.len() > 0,
        forall|i: int|
            0 <= i < v.len() ==> unbroken(#[trigger] v[i]) && tight(v[i]) && v[i].len() > 0,
    ensures
        unbroken(joined_with(v, ',')),
        joined_with(v, ',').len() > 0,
        !is_space(joined_with(v, ',')[0]),
    decreases v.len(),
{
    assert(unbroken(v[v.len() - 1]) && tight(v[v.len() - 1]));
    if v.len() > 1 {
        let d = v.drop_last();
        assert forall|i: int| 0 <= i < d.len() implies unbroken(#[trigger] d[i]) && tight(d[i])
            && d[i].len() > 0 by {
            assert(d[i] == v[i]);
        }
        lemma_joined_names(d);
        let j = joined_with(d, ',');
        let s = joined_with(v, ',');
        assert(s[0] == j[0]);
        assert forall|i: int| 0 <= i < s.len() implies #[trigger] s[i] != '\n' by {
            if i < j.len() {
                assert(s[i] == j[i]);
            } else if i > j.len() {
                assert(s[i] == v.last()[i - j.len() - 1]);
            }
        }
    }
}

/// The line of a host is one line, with no whitespace at its ends.
proof fn lemma_line(hosts: Seq<Seq<char>>, key: Seq<char>)
    requires
        forall|i: int| 0 <= i < hosts.len() ==> unbroken(#[trigger] hosts[i]),
    ensures
        line_for(hosts, key) matches Some(l) ==> unbroken(l) && tight(l) && l.len() > 0,
{
    if let Some(l) = line_for(hosts, key) {
        let k = trimmed(key);
        let names = joined_with(host_names(hosts), ',');
        let kind = first_word(k);
        let data = first_word(after_word(k));
        lemma_host_names(hosts);
        lemma_joined_names(host_names(hosts));
        lemma_run_solid(trimmed_front(k));
        lemma_run_solid(trimmed_front(after_word(k)));
        assert(l == names.push(' ') + kind.push(' ') + data);
        assert(l[0] == names[0]);
        assert(l.last() == data.last());
        assert(data.last() == data[data.len() - 1]);
        let m = names.len() as int;
        let n = kind.len() as int;
        assert forall|i: int| 0 <= i < l.len() implies #[trigger] l[i] != '\n' by {
            if i < m {
                assert(l[i] == names[i]);
            } else if i == m {
                assert(l[i] == ' ');
            } else if i < m + 1 + n {
                assert(l[i] == kind[i - m - 1]);
                assert(!is_space(kind[i - m - 1]));
            } else if i == m + 1 + n {
                assert(l[i] == ' ');
            } else {
                assert(l[i] == data[i - m - n - 2]);
                assert(!is_space(data[i - m - n - 2]));
            }
        }
    }
}

/// A line that stays is one line, with no whitespace at its ends.
proof fn lemma_kept(existing: Seq<char>, hosts: Seq<Seq<char>>, l: Seq<char>)
    requires
        is_kept(existing, hosts, l),
    ensures
        unbroken(l),
        tight(l),
        line_stays(l, hosts),
{
    let i = choose|i: int|
        0 <= i < lines_of(existing).len() && trimmed(#[trigger] lines_of(existing)[i]) == l
            && line_stays(l, hosts);
    lemma_parts_unbroken(existing);
    assert(lines_of(existing)[i] == parts(existing, '\n')[i]);
    lemma_trimmed(lines_of(existing)[i]);
}

/// Adding the line of a host a second time changes nothing: the file that the first
/// change made is what the second one makes of it. A name of the host with a line end in
/// it would break its line in two, so the hosts have none.
pub proof fn law_upsert_is_idempotent(
    existing: Seq<char>,
    hosts: Seq<Seq<char>>,
    key: Seq<char>,
    once: Seq<char>,
    twice: Seq<char>,
)
    requires
        line_for(hosts, key) is Some,
        forall|i: int| 0 <= i < hosts.len() ==> unbroken(#[trigger] hosts[i]),
        upserted(existing, hosts, key, once),
        upserted(once, hosts, key, twice),
    ensures
        twice == once,
{
    let v = choose|v: Seq<Seq<char>>| #[trigger]
        in_line_order(v) && once == file_text(v) && forall|l: Seq<char>| #[trigger]
            v.contains(l) == (is_kept(existing, hosts, l) || Some(l) == line_for(hosts, key));
    let w = choose|w: Seq<Seq<char>>| #[trigger]
        in_line_order(w) && twice == file_text(w) && forall|l: Seq<char>| #[trigger]
            w.contains(l) == (is_kept(once, hosts, l) || Some(l) == line_for(hosts, key));
    let new = line_for(hosts, key)->Some_0;
    lemma_line(hosts, key);
    assert forall|i: int| 0 <= i < v.len() implies unbroken(#[trigger] v[i]) && tight(v[i]) by {
        assert(v.contains(v[i]));
        if is_kept(existing, hosts, v[i]) {
            lemma_kept(existing, hosts, v[i]);
        }
    }
    assert(v.contains(new));
    lemma_file_lines(v, new);
    assert forall|l: Seq<char>| v.contains(l) == #[trigger] w.contains(l) by {
        if is_kept(once, hosts, l) {
            let i = choose|i: int|
                0 <= i < lines_of(once).len() && trimmed(#[trigger] lines_of(once)[i]) == l
                    && line_stays(l, hosts);
            assert(tight(v[i]));
            lemma_tight(v[i]);
            assert(v[i] == l);
        }
        if is_kept(existing, hosts, l) {
            lemma_kept(existing, hosts, l);
            assert(v.contains(l));
            let i = choose|i: int| 0 <= i < v.len() && v[i] == l;
            lemma_tight(l);
            assert(trimmed(lines_of(once)[i]) == l);
            assert(is_kept(once, hosts, l));
        }
    }
    lemma_same_lines(v, w);
}

} // verus!
