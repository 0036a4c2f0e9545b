//! Machine-bound wrapping keys for persistent state.

use super::crypto::{expand_key, hkdf_key};
use crate::text::{
    chars_of, contains_text, holds, is_at, is_space, occurs_at, parts, space, split_on, substring,
    trim, trimmed,
};
use vstd::prelude::*;
use vstd::string::*;
use vstd::utf8::encode_utf8;

verus! {

/// The purpose for which the key is derived.
pub open spec fn info() -> Seq<u8> {
    encode_utf8("tunnet-state-enc-v1"@)
}

/// The key that wraps the data-encryption key, from the machine's id and a salt. An empty
/// salt asks for the default one.
pub open spec fn wrap_key_of(machine_id: Seq<char>, salt: Seq<u8>) -> Seq<u8> {
    hkdf_key(
        if salt.len() == 0 {
            None
        } else {
            Some(salt)
        },
        encode_utf8(machine_id),
        info(),
    )
}

pub fn derive_wrap_key(machine_id: &str, salt: &[u8]) -> (r: Option<Vec<u8>>)
    ensures
        r is Some,
        r matches Some(k) ==> k@ == wrap_key_of(machine_id@, salt@) && k@.len() == 32,
{
    let salt_or_default: Option<&[u8]> = if salt.len() == 0 {
        None
    } else {
        Some(salt)
    };
    expand_key(salt_or_default, machine_id.as_bytes(), "tunnet-state-enc-v1".as_bytes())
}

/// The first of the files that holds an id, trimmed.
pub open spec fn first_id(files: Seq<Option<String>>) -> Option<Seq<char>>
    decreases files.len(),
{
    if files.len() == 0 {
        None
    } else {
        match files[0] {
            Some(s) => if trimmed(s@).len() > 0 {
                Some(trimmed(s@))
            } else {
                first_id(files.drop_first())
            },
            None => first_id(files.drop_first()),
        }
    }
}

/// The machine's id, from the contents of the files that may hold it.
pub fn machine_id_from(files: &[Option<String>]) -> (r: Option<String>)
    ensures
        r is Some == first_id(files@) is Some,
        r matches Some(s) ==> first_id(files@) == Some(s@),
{
    let ghost s = files@;
    let mut i: usize = 0;
    assert(s.skip(0) =~= s);
    while i < files.len()
        invariant
            s == files@,
            i <= s.len(),
            first_id(s) == first_id(s.skip(i as int)),
        decreases files.len() - i,
    {
        proof {
            assert(s.skip(i as int)[0] == s[i as int]);
            assert(s.skip(i as int).drop_first() =~= s.skip(i + 1));
        }
        if let Some(text) = &files[i] {
            let t = trim(text.as_str());
            if !t.as_str().is_empty() {
                return Some(t);
            }
        }
        i += 1;
    }
    None
}

/// The first place from `i` on where `key` occurs in `s`.
pub open spec fn found_from(s: Seq<char>, key: Seq<char>, i: int) -> Option<int>
    decreases s.len() - i + 1,
{
    if i < 0 || i + key.len() > s.len() {
        None
    } else if occurs_at(s, key, i) {
        Some(i)
    } else {
        found_from(s, key, i + 1)
    }
}

fn find_from(s: &[char], key: &[char], i: usize) -> (r: Option<usize>)
    requires
        i <= s@.len(),
        key@.len() > 0,
    ensures
        r is Some == found_from(s@, key@, i as int) is Some,
        r matches Some(k) ==> found_from(s@, key@, i as int) == Some(k as int) && i <= k && k
            + key@.len() <= s@.len(),
{
    if key.len() > s.len() {
        return None;
    }
    let last: usize = s.len() - key.len();
    let mut k: usize = i;
    while k <= last
        invariant
            last == s@.len() - key@.len(),
            last < usize::MAX,
            i <= k <= s@.len() + 1,
            found_from(s@, key@, i as int) == found_from(s@, key@, k as int),
        decreases last + 1 - k,
    {
        if is_at(s, key, k) {
            return Some(k);
        }
        k += 1;
    }
    None
}

/// The text between the next two quotation marks.
pub open spec fn between_quotes(s: Seq<char>) -> Option<Seq<char>> {
    match found_from(s, seq!['"'], 0) {
        None => None,
        Some(a) => match found_from(s, seq!['"'], a + 1) {
            None => None,
            Some(b) => Some(s.subrange(a + 1, b)),
        },
    }
}

/// What follows the first `key` in a line, up to the next one.
pub open spec fn after_key(line: Seq<char>, key: Seq<char>) -> Option<Seq<char>> {
    match found_from(line, key, 0) {
        None => None,
        Some(a) => Some(
            line.subrange(
                a + key.len(),
                match found_from(line, key, a + key.len()) {
                    Some(b) => b,
                    None => line.len() as int,
                },
            ),
        ),
    }
}

/// The id in a line of the platform's registry: what the first two quotation marks behind
/// the key hold between them.
pub open spec fn quoted_id(line: Seq<char>) -> Option<Seq<char>> {
    match after_key(line, "IOPlatformUUID"@) {
        None => None,
        Some(rest) => between_quotes(rest),
    }
}

fn read_quoted_id(line: &[char]) -> (r: Option<String>)
    ensures
        r is Some == quoted_id(line@) is Some,
        r matches Some(s) ==> quoted_id(line@) == Some(s@),
{
    let key = chars_of("IOPlatformUUID");
    proof {
        reveal_strlit("IOPlatformUUID");
    }
    let n: usize = line.len();
    let at: usize = match find_from(line, key.as_slice(), 0) {
        None => {
            return None;
        },
        Some(a) => a + key.len(),
    };
    let end: usize = match find_from(line, key.as_slice(), at) {
        None => n,
        Some(b) => b,
    };
    let rest_text = substring(line, at, end);
    let rest = chars_of(rest_text.as_str());
    let mark: Vec<char> = vec!['"'];
    assert(mark@ =~= seq!['"']);
    match find_from(rest.as_slice(), mark.as_slice(), 0) {
        None => None,
        Some(a) => match find_from(rest.as_slice(), mark.as_slice(), a + 1) {
            None => None,
            Some(b) => Some(substring(rest.as_slice(), a + 1, b)),
        },
    }
}

/// The last of the words of a text.
pub open spec fn last_word(s: Seq<char>) -> Seq<char>
    decreases s.len(),
{
    if s.len() > 0 && is_space(s.last()) {
        last_word(s.drop_last())
    } else {
        last_run(s)
    }
}

/// What follows the last whitespace.
pub open spec fn last_run(s: Seq<char>) -> Seq<char>
    decreases s.len(),
{
    if s.len() == 0 || is_space(s.last()) {
        seq![]
    } else {
        last_run(s.drop_last()).push(s.last())
    }
}

proof fn lemma_last_run(s: Seq<char>, i: int)
    requires
        0 <= i <= s.len(),
        i > 0 ==> is_space(s[i - 1]),
        forall|j: int| i <= j < s.len() ==> !is_space(#[trigger] s[j]),
    ensures
        last_run(s) == s.skip(i),
    decreases s.len(),
{
    if i == s.len() {
        assert(s.skip(i) =~= seq![]);
    } else {
        lemma_last_run(s.drop_last(), i);
        assert(s.drop_last().skip(i).push(s.last()) =~= s.skip(i));
    }
}

fn read_last_word(v: &[char]) -> (r: String)
    ensures
        r@ == last_word(v@),
{
    let n: usize = v.len();
    let mut j: usize = n;
    assert(v@.take(n as int) =~= v@);
    while j > 0 && space(v[j - 1])
        invariant
            n == v@.len(),
            j <= n,
            last_word(v@) == last_word(v@.take(j as int)),
        decreases j,
    {
        assert(v@.take(j as int).drop_last() =~= v@.take(j - 1));
        j -= 1;
    }
    let ghost t = v@.take(j as int);
    let mut i: usize = j;
    while i > 0 && !space(v[i - 1])
        invariant
            n == v@.len(),
            i <= j <= n,
            t == v@.take(j as int),
            forall|k: int| i <= k < j ==> !is_space(#[trigger] t[k]),
        decreases i,
    {
        i -= 1;
        assert(t[i as int] == v@[i as int]);
    }
    proof {
        lemma_last_run(t, i as int);
        assert(t.skip(i as int) =~= v@.subrange(i as int, j as int));
    }
    substring(v, i, j)
}

/// The first line with a quoted id.
pub open spec fn first_quoted(lines: Seq<Seq<char>>) -> Option<Seq<char>>
    decreases lines.len(),
{
    if lines.len() == 0 {
        None
    } else if quoted_id(lines[0]) is Some {
        quoted_id(lines[0])
    } else {
        first_quoted(lines.drop_first())
    }
}

/// The last word of the first line that speaks of the machine's id.
pub open spec fn first_registered(lines: Seq<Seq<char>>) -> Option<Seq<char>>
    decreases lines.len(),
{
    if lines.len() == 0 {
        None
    } else if contains_text(lines[0], "MachineGuid"@) {
        Some(last_word(lines[0]))
    } else {
        first_registered(lines.drop_first())
    }
}

/// The machine's id, from what `ioreg` prints on macOS.
pub fn machine_id_from_ioreg(output: &str) -> (r: Option<String>)
    ensures
        r is Some == first_quoted(parts(output@, '\n')) is Some,
        r matches Some(s) ==> first_quoted(parts(output@, '\n')) == Some(s@),
{
    let text = chars_of(output);
    let bounds = split_on(text.as_slice(), '\n');
    let ghost lines = parts(output@, '\n');
    let mut i: usize = 0;
    assert(lines.skip(0) =~= lines);
    while i < bounds.len()
        invariant
            text@ == output@,
            lines == parts(output@, '\n'),
            bounds@.len() == lines.len(),
            forall|j: int|
                0 <= j < bounds@.len() ==> (#[trigger] bounds@[j]).0 <= bounds@[j].1 <= text@.len()
                    && text@.subrange(bounds@[j].0 as int, bounds@[j].1 as int) == lines[j],
            i <= bounds@.len(),
            first_quoted(lines) == first_quoted(lines.skip(i as int)),
        decreases bounds.len() - i,
    {
        proof {
            assert(lines.skip(i as int)[0] == lines[i as int]);
            assert(lines.skip(i as int).drop_first() =~= lines.skip(i + 1));
        }
        let line = substring(text.as_slice(), bounds[i].0, bounds[i].1);
        let line_chars = chars_of(line.as_str());
        let found = read_quoted_id(line_chars.as_slice());
        if found.is_some() {
            return found;
        }
        i += 1;
    }
    None
}

/// The machine's id, from what `reg query` prints on Windows.
pub fn machine_id_from_registry(output: &str) -> (r: Option<String>)
    ensures
        r is Some == first_registered(parts(output@, '\n')) is Some,
        r matches Some(s) ==> first_registered(parts(output@, '\n')) == Some(s@),
{
    let text = chars_of(output);
    let bounds = split_on(text.as_slice(), '\n');
    let ghost lines = parts(output@, '\n');
    let mut i: usize = 0;
    assert(lines.skip(0) =~= lines);
    while i < bounds.len()
        invariant
            text@ == output@,
            lines == parts(output@, '\n'),
            bounds@.len() == lines.len(),
            forall|j: int|
                0 <= j < bounds@.len() ==> (#[trigger] bounds@[j]).0 <= bounds@[j].1 <= text@.len()
                    && text@.subrange(bounds@[j].0 as int, bounds@[j].1 as int) == lines[j],
            i <= bounds@.len(),
            first_registered(lines) == first_registered(lines.skip(i as int)),
        decreases bounds.len() - i,
    {
        proof {
            assert(lines.skip(i as int)[0] == lines[i as int]);
            assert(lines.skip(i as int).drop_first() =~= lines.skip(i + 1));
        }
        let line = substring(text.as_slice(), bounds[i].0, bounds[i].1);
        let line_chars = chars_of(line.as_str());
        if holds(line_chars.as_slice(), "MachineGuid") {
            return Some(read_last_word(line_chars.as_slice()));
        }
        i += 1;
    }
    None
}

} // verus!
