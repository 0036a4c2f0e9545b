//! The `known_hosts` file, from the host keys of peers.

pub mod entries;
pub mod laws;

use crate::ip::{dotted_quad, ip_str};
use crate::ipc::order::{is_before, lemma_before_order, text_before};
use crate::policy::rules::{holds_text, texts};
use crate::routing::types::PeerEntry;
use crate::text::{
    chars_of, dotted, is_space, join_dotted, parts, same_text, space, split_on, string_of,
    substring, trim, trimmed, trimmed_front,
};
use laws::upserted;
use vstd::prelude::*;
use vstd::string::*;

verus! {

/// The characters up to the first whitespace.
pub open spec fn run_of(s: Seq<char>) -> Seq<char>
    decreases s.len(),
{
    if s.len() == 0 || is_space(s[0]) {
        Seq::empty()
    } else {
        seq![s[0]] + run_of(s.drop_first())
    }
}

/// The first word of a text.
pub open spec fn first_word(s: Seq<char>) -> Seq<char> {
    run_of(trimmed_front(s))
}

/// What follows the first word.
pub open spec fn after_word(s: Seq<char>) -> Seq<char> {
    trimmed_front(s).skip(first_word(s).len() as int)
}

proof fn lemma_run(s: Seq<char>, i: int)
    requires
        0 <= i <= s.len(),
        forall|j: int| 0 <= j < i ==> !is_space(#[trigger] s[j]),
        i < s.len() ==> is_space(s[i]),
    ensures
        run_of(s) == s.take(i),
    decreases s.len(),
{
    if i > 0 {
        assert(!is_space(s[0]));
        let t = s.drop_first();
        assert forall|j: int| 0 <= j < i - 1 implies !is_space(#[trigger] t[j]) by {
            assert(!is_space(s[j + 1]));
        }
        lemma_run(t, i - 1);
        assert(seq![s[0]] + t.take(i - 1) =~= s.take(i));
    } else {
        assert(s.take(0) =~= Seq::<char>::empty());
    }
}

/// The bounds of the first word from `from` on.
fn word_bounds(v: &[char], from: usize) -> (r: (usize, usize))
    requires
        from <= v@.len(),
    ensures
        from <= r.0 <= r.1 <= v@.len(),
        v@.subrange(r.0 as int, r.1 as int) == first_word(v@.skip(from as int)),
        v@.skip(r.1 as int) == after_word(v@.skip(from as int)),
{
    let n: usize = v.len();
    let ghost s = v@.skip(from as int);
    let mut i: usize = from;
    while i < n && space(v[i])
        invariant
            n == v@.len(),
            from <= i <= n,
            s == v@.skip(from as int),
            trimmed_front(s) == trimmed_front(v@.skip(i as int)),
        decreases n - i,
    {
        assert(v@.skip(i as int)[0] == v@[i as int]);
        assert(v@.skip(i as int).drop_first() =~= v@.skip(i + 1));
        i += 1;
    }
    let ghost t = v@.skip(i as int);
    proof {
        if i < n {
            assert(t[0] == v@[i as int]);
        }
        assert(trimmed_front(s) == t);
    }
    let mut j: usize = i;
    while j < n && !space(v[j])
        invariant
            n == v@.len(),
            i <= j <= n,
            t == v@.skip(i as int),
            forall|k: int| 0 <= k < j - i ==> !is_space(#[trigger] t[k]),
        decreases n - j,
    {
        assert(t[j - i] == v@[j as int]);
        j += 1;
    }
    proof {
        if j < n {
            assert(t[j - i] == v@[j as int]);
        }
        lemma_run(t, j - i);
        assert(v@.subrange(i as int, j as int) =~= t.take(j - i));
        assert(v@.skip(j as int) =~= t.skip(j - i));
        assert(t.take(j - i).len() == j - i);
    }
    (i, j)
}

/// The names of a host: trimmed, without empty ones, each once.
pub open spec fn host_names(hosts: Seq<Seq<char>>) -> Seq<Seq<char>>
    decreases hosts.len(),
{
    if hosts.len() == 0 {
        Seq::empty()
    } else {
        let rest = host_names(hosts.drop_last());
        let h = trimmed(hosts.last());
        if h.len() == 0 || rest.contains(h) {
            rest
        } else {
            rest.push(h)
        }
    }
}

/// Texts with a separator between them.
pub open spec fn joined_with(v: Seq<Seq<char>>, sep: char) -> Seq<char>
    decreases v.len(),
{
    if v.len() == 0 {
        Seq::empty()
    } else if v.len() == 1 {
        v[0]
    } else {
        joined_with(v.drop_last(), sep).push(sep) + v.last()
    }
}

fn join_with(v: &[String], sep: char) -> (s: String)
    ensures
        s@ == joined_with(texts(v@), sep),
{
    let mut s: String = String::new();
    let ghost t = texts(v@);
    let mut i: usize = 0;
    assert(s@ =~= joined_with(t.take(0), sep));
    while i < v.len()
        invariant
            t == texts(v@),
            i <= v@.len(),
            s@ == joined_with(t.take(i as int), sep),
        decreases v.len() - i,
    {
        proof {
            assert(t.take(i + 1).drop_last() =~= t.take(i as int));
            assert(t.take(i + 1).last() == t[i as int]);
        }
        if i > 0 {
            s.push(sep);
        }
        let ghost before = s@;
        s.append(v[i].as_str());
        proof {
            if i == 0 {
                assert(s@ =~= t[0]);
                assert(t.take(1)[0] == t[0]);
            }
        }
        i += 1;
    }
    assert(t.take(i as int) =~= t);
    s
}

/// A line for a host: its names, and the type and data of its key. A key needs both, and
/// a host needs a name.
pub open spec fn line_for(hosts: Seq<Seq<char>>, key: Seq<char>) -> Option<Seq<char>> {
    let k = trimmed(key);
    let names = host_names(hosts);
    if names.len() == 0 || first_word(k).len() == 0 || first_word(after_word(k)).len() == 0 {
        None
    } else {
        Some(
            joined_with(names, ',').push(' ') + first_word(k).push(' ') + first_word(
                after_word(k),
            ),
        )
    }
}

/// Texts of a list of slices.
pub open spec fn slices_seen(v: Seq<&str>) -> Seq<Seq<char>> {
    Seq::new(v.len(), |i: int| v[i]@)
}

fn name_list(hosts: &[&str]) -> (v: Vec<String>)
    ensures
        texts(v@) == host_names(slices_seen(hosts@)),
{
    let mut v: Vec<String> = Vec::new();
    let ghost s = slices_seen(hosts@);
    let mut i: usize = 0;
    assert(texts(v@) =~= host_names(s.take(0)));
    while i < hosts.len()
        invariant
            s == slices_seen(hosts@),
            i <= hosts@.len(),
            texts(v@) == host_names(s.take(i as int)),
        decreases hosts.len() - i,
    {
        proof {
            assert(s.take(i + 1).drop_last() =~= s.take(i as int));
            assert(s.take(i + 1).last() == s[i as int]);
        }
        let h = trim(hosts[i]);
        if !h.as_str().is_empty() && !holds_text(v.as_slice(), h.as_str()) {
            let ghost before = texts(v@);
            let ghost hh = h@;
            v.push(h);
            assert(texts(v@) =~= before.push(hh));
        }
        i += 1;
    }
    assert(s.take(i as int) =~= s);
    v
}

/// Build a single OpenSSH known_hosts line for a peer.
///
/// `openssh_pubkey` is `ssh-ed25519 AAAA... [comment]`.
pub fn known_hosts_line(hosts: &[&str], openssh_pubkey: &str) -> (r: Option<String>)
    ensures
        r is Some == line_for(slices_seen(hosts@), openssh_pubkey@) is Some,
        r matches Some(s) ==> line_for(slices_seen(hosts@), openssh_pubkey@) == Some(s@),
{
    let key = trim(openssh_pubkey);
    let v = chars_of(key.as_str());
    let a = word_bounds(v.as_slice(), 0);
    assert(v@.skip(0) =~= v@);
    if a.0 == a.1 {
        return None;
    }
    let b = word_bounds(v.as_slice(), a.1);
    if b.0 == b.1 {
        return None;
    }
    let names = name_list(hosts);
    assert(texts(names@).len() == names@.len());
    if names.len() == 0 {
        return None;
    }
    let mut s = join_with(names.as_slice(), ',');
    s.push(' ');
    let kind = substring(v.as_slice(), a.0, a.1);
    let data = substring(v.as_slice(), b.0, b.1);
    let ghost head = s@;
    s.append(kind.as_str());
    s.push(' ');
    assert(s@ =~= head + kind@.push(' '));
    s.append(data.as_str());
    Some(s)
}

/// The text without the dots at its ends.
pub open spec fn undotted(s: Seq<char>) -> Seq<char> {
    crate::text::without_dots(undotted_front(s))
}

pub open spec fn undotted_front(s: Seq<char>) -> Seq<char>
    decreases s.len(),
{
    if s.len() > 0 && s[0] == '.' {
        undotted_front(s.drop_first())
    } else {
        s
    }
}

fn trim_dots(s: &str) -> (r: String)
    ensures
        r@ == undotted(s@),
{
    let v = chars_of(s);
    let n: usize = v.len();
    let mut i: usize = 0;
    assert(v@.skip(0) =~= v@);
    while i < n && v[i] == '.'
        invariant
            n == v@.len(),
            v@ == s@,
            i <= n,
            undotted_front(s@) == undotted_front(v@.skip(i as int)),
        decreases n - i,
    {
        assert(v@.skip(i as int)[0] == v@[i as int]);
        assert(v@.skip(i as int).drop_first() =~= v@.skip(i + 1));
        i += 1;
    }
    proof {
        if i < n {
            assert(v@.skip(i as int)[0] == v@[i as int]);
        }
        assert(v@.subrange(i as int, n as int) =~= v@.skip(i as int));
    }
    let t = substring(v.as_slice(), i, n);
    let mut w = chars_of(t.as_str());
    crate::text::drop_dots(&mut w);
    string_of(w.as_slice())
}

/// The names under which a peer is listed: its address, and with a hostname that and its
/// full name.
pub open spec fn names_of(p: PeerEntry, suffix: Seq<char>) -> Seq<Seq<char>> {
    if p.hostname@.len() == 0 {
        seq![dotted_quad(p.ip)]
    } else {
        seq![dotted_quad(p.ip), p.hostname@, dotted(p.hostname@, undotted(suffix))]
    }
}

/// The peer has a host key.
pub open spec fn has_key(p: PeerEntry) -> bool {
    p.ssh_host_key matches Some(k) && trimmed(k@).len() > 0
}

/// The line of a peer.
pub open spec fn peer_line(p: PeerEntry, suffix: Seq<char>) -> Option<Seq<char>> {
    match p.ssh_host_key {
        Some(k) => line_for(names_of(p, suffix), k@),
        None => None,
    }
}

fn line_of(p: &PeerEntry, suffix: &str) -> (r: Option<String>)
    ensures
        r is Some == peer_line(*p, suffix@) is Some,
        r matches Some(s) ==> peer_line(*p, suffix@) == Some(s@),
{
    let key = match &p.ssh_host_key {
        Some(k) => k,
        None => {
            return None;
        },
    };
    let ip = ip_str(p.ip);
    let mut hosts: Vec<&str> = Vec::new();
    hosts.push(ip.as_str());
    let tail = trim_dots(suffix);
    let full = join_dotted(p.hostname.as_str(), tail.as_str());
    if !p.hostname.as_str().is_empty() {
        hosts.push(p.hostname.as_str());
        hosts.push(full.as_str());
    }
    assert(slices_seen(hosts@) =~= names_of(*p, suffix@));
    known_hosts_line(hosts.as_slice(), key.as_str())
}

/// The peer is the last one with its endpoint among those that have a key: one that is a
/// member of several networks is listed once.
pub open spec fn listed(peers: Seq<PeerEntry>, i: int) -> bool {
    0 <= i < peers.len() && has_key(peers[i]) && forall|j: int|
        i < j < peers.len() && has_key(#[trigger] peers[j]) ==> peers[j].endpoint_id@
            != peers[i].endpoint_id@
}

/// The line is that of a listed peer.
pub open spec fn is_line(peers: Seq<PeerEntry>, suffix: Seq<char>, line: Seq<char>) -> bool {
    exists|i: int| #[trigger] listed(peers, i) && peer_line(peers[i], suffix) == Some(line)
}

/// Lines in order, each once.
pub open spec fn in_line_order(v: Seq<Seq<char>>) -> bool {
    forall|i: int, j: int| #![trigger v[i], v[j]] 0 <= i < j < v.len() ==> text_before(v[i], v[j])
}

/// The lines of a file, each ended.
pub open spec fn file_text(v: Seq<Seq<char>>) -> Seq<char> {
    if joined_with(v, '\n').len() == 0 {
        Seq::empty()
    } else {
        joined_with(v, '\n').push('\n')
    }
}

/// Puts a line in its place, unless it is there.
fn put_line(v: &mut Vec<String>, line: String)
    requires
        in_line_order(texts(old(v)@)),
    ensures
        in_line_order(texts(final(v)@)),
        forall|s: Seq<char>| #[trigger]
            texts(final(v)@).contains(s) == (texts(old(v)@).contains(s) || s == line@),
{
    let ghost was = texts(v@);
    let ghost l = line@;
    let mut i: usize = 0;
    while i < v.len() && is_before(v[i].as_str(), line.as_str())
        invariant
            was == texts(v@),
            l == line@,
            i <= v@.len(),
            forall|j: int| 0 <= j < i ==> text_before(#[trigger] was[j], l),
        decreases v.len() - i,
    {
        assert(was[i as int] == v@[i as int]@);
        i += 1;
    }
    if i < v.len() && same_text(v[i].as_str(), line.as_str()) {
        proof {
            assert(was[i as int] == l);
        }
        return;
    }
    v.insert(i, line);
    proof {
        let now = texts(v@);
        assert(now =~= was.insert(i as int, l));
        if i < was.len() {
            assert(was[i as int] != l);
            lemma_before_order(was[i as int], l, l);
        }
        assert forall|a: int, b: int|
            #![trigger now[a], now[b]]
            0 <= a < b < now.len() implies text_before(now[a], now[b]) by {
            if a == i {
                assert(now[b] == was[b - 1]);
                lemma_before_order(l, was[i as int], was[b - 1]);
                if b - 1 > i {
                    assert(text_before(was[i as int], was[b - 1]));
                }
            } else if b == i {
                assert(now[a] == was[a]);
            } else {
                let x = if a < i {
                    a
                } else {
                    a - 1
                };
                let y = if b < i {
                    b
                } else {
                    b - 1
                };
                assert(now[a] == was[x] && now[b] == was[y]);
            }
        }
        assert forall|s: Seq<char>| #[trigger] now.contains(s) == (was.contains(s) || s == l) by {
            if was.contains(s) {
                let k = choose|k: int| 0 <= k < was.len() && was[k] == s;
                let y = if k < i {
                    k
                } else {
                    k + 1
                };
                assert(now[y] == s);
            }
            if s == l {
                assert(now[i as int] == l);
            }
            if now.contains(s) {
                let k = choose|k: int| 0 <= k < now.len() && now[k] == s;
                if k != i {
                    let y = if k < i {
                        k
                    } else {
                        k - 1
                    };
                    assert(was[y] == s);
                }
            }
        }
    }
}

fn finish_file(v: &[String]) -> (s: String)
    ensures
        s@ == file_text(texts(v@)),
{
    let mut s = join_with(v, '\n');
    if !s.as_str().is_empty() {
        s.push('\n');
    } else {
        assert(s@ =~= Seq::<char>::empty());
    }
    s
}

fn is_listed(peers: &[PeerEntry], i: usize) -> (b: bool)
    requires
        i < peers@.len(),
    ensures
        b == listed(peers@, i as int),
{
    if !key_present(&peers[i]) {
        return false;
    }
    let mut j: usize = i + 1;
    while j < peers.len()
        invariant
            i < j <= peers@.len(),
            has_key(peers@[i as int]),
            forall|k: int|
                i < k < j && has_key(#[trigger] peers@[k]) ==> peers@[k].endpoint_id@
                    != peers@[i as int].endpoint_id@,
        decreases peers.len() - j,
    {
        if key_present(&peers[j]) && same_text(
            peers[j].endpoint_id.as_str(),
            peers[i].endpoint_id.as_str(),
        ) {
            return false;
        }
        j += 1;
    }
    true
}

fn key_present(p: &PeerEntry) -> (b: bool)
    ensures
        b == has_key(*p),
{
    match &p.ssh_host_key {
        Some(k) => {
            let t = trim(k.as_str());
            !t.as_str().is_empty()
        },
        None => false,
    }
}

/// The `known_hosts` file of the peers that advertise an SSH host key.
pub fn known_hosts_body(peers: &[PeerEntry], dns_suffix: &str) -> (s: String)
    ensures
        exists|v: Seq<Seq<char>>| #[trigger]
            in_line_order(v) && s@ == file_text(v) && forall|l: Seq<char>| #[trigger]
                v.contains(l) == is_line(peers@, dns_suffix@, l),
{
    let mut v: Vec<String> = Vec::new();
    let mut i: usize = 0;
    assert(in_line_order(texts(v@)));
    while i < peers.len()
        invariant
            i <= peers@.len(),
            in_line_order(texts(v@)),
            forall|l: Seq<char>| #[trigger]
                texts(v@).contains(l) ==> is_line(peers@, dns_suffix@, l),
            forall|k: int|
                0 <= k < i && #[trigger] listed(peers@, k) && peer_line(
                    peers@[k],
                    dns_suffix@,
                ) is Some ==> texts(v@).contains(peer_line(peers@[k], dns_suffix@)->Some_0),
        decreases peers.len() - i,
    {
        if is_listed(peers, i) {
            if let Some(line) = line_of(&peers[i], dns_suffix) {
                proof {
                    assert(listed(peers@, i as int));
                    assert(is_line(peers@, dns_suffix@, line@));
                }
                put_line(&mut v, line);
            }
        }
        i += 1;
    }
    let s = finish_file(v.as_slice());
    proof {
        let t = texts(v@);
        assert forall|l: Seq<char>| #[trigger] t.contains(l) == is_line(
            peers@,
            dns_suffix@,
            l,
        ) by {
            if is_line(peers@, dns_suffix@, l) {
                let k = choose|k: int| #[trigger]
                    listed(peers@, k) && peer_line(peers@[k], dns_suffix@) == Some(l);
                assert(t.contains(peer_line(peers@[k], dns_suffix@)->Some_0));
            }
        }
    }
    s
}

/// The lines of a text: a last line that is empty is none.
pub open spec fn lines_of(s: Seq<char>) -> Seq<Seq<char>> {
    let p = parts(s, '\n');
    if p.last().len() == 0 {
        p.drop_last()
    } else {
        p
    }
}

/// One of the names of a line is among the hosts.
pub open spec fn overlaps(field: Seq<char>, hosts: Seq<Seq<char>>) -> bool {
    exists|i: int| 0 <= i < parts(field, ',').len() && hosts.contains(#[trigger] parts(field, ',')[i])
}

/// A line, trimmed, stays: it is empty, a comment, without a space in it, or of other
/// hosts.
pub open spec fn line_stays(line: Seq<char>, hosts: Seq<Seq<char>>) -> bool {
    line.len() == 0 || line[0] == '#' || run_of(line).len() == line.len() || !overlaps(
        run_of(line),
        hosts,
    )
}

/// A line of the file that stays.
pub open spec fn is_kept(existing: Seq<char>, hosts: Seq<Seq<char>>, line: Seq<char>) -> bool {
    exists|i: int|
        0 <= i < lines_of(existing).len() && trimmed(#[trigger] lines_of(existing)[i]) == line
            && line_stays(line, hosts)
}

fn slice_in(v: &[&str], t: &str) -> (b: bool)
    ensures
        b == slices_seen(v@).contains(t@),
{
    let ghost s = slices_seen(v@);
    let mut i: usize = 0;
    while i < v.len()
        invariant
            s == slices_seen(v@),
            i <= v@.len(),
            forall|j: int| 0 <= j < i ==> s[j] != t@,
        decreases v.len() - i,
    {
        assert(s[i as int] == v@[i as int]@);
        if same_text(v[i], t) {
            return true;
        }
        i += 1;
    }
    false
}

fn stays(line: &[char], hosts: &[&str]) -> (b: bool)
    ensures
        b == line_stays(line@, slices_seen(hosts@)),
{
    if line.len() == 0 || line[0] == '#' {
        return true;
    }
    let n: usize = line.len();
    let mut i: usize = 0;
    while i < n && !space(line[i])
        invariant
            n == line@.len(),
            i <= n,
            forall|j: int| 0 <= j < i ==> !is_space(#[trigger] line@[j]),
        decreases n - i,
    {
        i += 1;
    }
    proof {
        lemma_run(line@, i as int);
    }
    if i == n {
        return true;
    }
    let head = substring(line, 0, i);
    let field = chars_of(head.as_str());
    assert(line@.subrange(0, i as int) =~= line@.take(i as int));
    let ps = split_on(field.as_slice(), ',');
    let mut k: usize = 0;
    while k < ps.len()
        invariant
            k <= ps@.len(),
            field@ == run_of(line@),
            ps@.len() == parts(field@, ',').len(),
            forall|j: int|
                0 <= j < ps@.len() ==> (#[trigger] ps@[j]).0 <= ps@[j].1 <= field@.len()
                    && field@.subrange(ps@[j].0 as int, ps@[j].1 as int) == parts(field@, ',')[j],
            forall|j: int|
                0 <= j < k ==> !slices_seen(hosts@).contains(#[trigger] parts(field@, ',')[j]),
            line@.len() > 0,
            line@[0] != '#',
            run_of(line@).len() != line@.len(),
        decreases ps.len() - k,
    {
        let b = ps[k];
        let name = substring(field.as_slice(), b.0, b.1);
        if slice_in(hosts, name.as_str()) {
            assert(slices_seen(hosts@).contains(parts(field@, ',')[k as int]));
            return false;
        }
        k += 1;
    }
    true
}

/// An existing `known_hosts` file with the line of one more peer in place of the lines
/// that name one of its hosts. Without a line for the peer there is no change.
pub fn upsert_known_hosts(existing: &str, hosts: &[&str], openssh_pubkey: &str) -> (r: Option<String>)
    ensures
        r is Some == line_for(slices_seen(hosts@), openssh_pubkey@) is Some,
        r matches Some(s) ==> upserted(existing@, slices_seen(hosts@), openssh_pubkey@, s@),
{
    let new_line = match known_hosts_line(hosts, openssh_pubkey) {
        Some(l) => l,
        None => {
            return None;
        },
    };
    let text = chars_of(existing);
    let ps = split_on(text.as_slice(), '\n');
    let ghost all = parts(existing@, '\n');
    let ghost lines = lines_of(existing@);
    let ghost hs = slices_seen(hosts@);
    proof {
        lemma_parts_nonempty(existing@, '\n');
    }
    let last = ps[ps.len() - 1];
    let n: usize = if last.0 == last.1 {
        ps.len() - 1
    } else {
        ps.len()
    };
    proof {
        assert(text@.subrange(last.0 as int, last.1 as int) == all.last());
        assert(n == lines.len());
    }
    let mut v: Vec<String> = Vec::new();
    let mut i: usize = 0;
    while i < n
        invariant
            text@ == existing@,
            all == parts(existing@, '\n'),
            lines == lines_of(existing@),
            hs == slices_seen(hosts@),
            n == lines.len(),
            n <= ps@.len(),
            i <= n,
            ps@.len() == all.len(),
            forall|j: int|
                0 <= j < ps@.len() ==> (#[trigger] ps@[j]).0 <= ps@[j].1 <= text@.len()
                    && text@.subrange(ps@[j].0 as int, ps@[j].1 as int) == all[j],
            in_line_order(texts(v@)),
            forall|l: Seq<char>| #[trigger] texts(v@).contains(l) ==> is_kept(existing@, hs, l),
            forall|j: int|
                0 <= j < i && line_stays(trimmed(#[trigger] lines[j]), hs) ==> texts(v@).contains(
                    trimmed(lines[j]),
                ),
        decreases n - i,
    {
        let b = ps[i];
        let raw = substring(text.as_slice(), b.0, b.1);
        assert(raw@ == lines[i as int]);
        let line = trim(raw.as_str());
        let cs = chars_of(line.as_str());
        if stays(cs.as_slice(), hosts) {
            proof {
                assert(trimmed(lines[i as int]) == line@);
                assert(is_kept(existing@, hs, line@));
            }
            put_line(&mut v, line);
        }
        i += 1;
    }
    let ghost before = texts(v@);
    let ghost nl = new_line@;
    put_line(&mut v, new_line);
    let s = finish_file(v.as_slice());
    proof {
        let t = texts(v@);
        assert forall|l: Seq<char>| #[trigger] t.contains(l) == (is_kept(existing@, hs, l) || Some(
            l,
        ) == line_for(hs, openssh_pubkey@)) by {
            if is_kept(existing@, hs, l) {
                let j = choose|j: int|
                    0 <= j < lines_of(existing@).len() && trimmed(
                        #[trigger] lines_of(existing@)[j],
                    ) == l && line_stays(l, hs);
                assert(line_stays(trimmed(lines[j]), hs));
                assert(before.contains(trimmed(lines[j])));
            }
        }
    }
    assert(upserted(existing@, hs, openssh_pubkey@, s@));
    Some(s)
}

proof fn lemma_parts_nonempty(s: Seq<char>, c: char)
    ensures
        parts(s, c).len() > 0,
{
}

} // verus!
