//! Numbers, letters and white space in texts: what is written is what is read.

use crate::inspect::body::{before_semicolon, chunk_size, hex_digit, hex_value};
use crate::inspect::head::HttpError;
use crate::text::{
    contains_text, decimal, decimal_value, digit_value, is_space, lower, lowered, occurs_at, parts,
    place_of_char, trimmed, trimmed_back, trimmed_front, u64_of, usize_of, without_dots,
    without_suffix,
};
use vstd::prelude::*;
use vstd::utf8::{encode_utf8, encode_utf8_decode_utf8, encode_utf8_valid_utf8};

verus! {

/// The sign for a digit: `0` to `9`, then the letters from `a` or `A` on.
pub open spec fn glyph(d: nat, capital: bool) -> char {
    if d < 10 {
        (48 + d) as u8 as char
    } else if capital {
        (65 + d - 10) as u8 as char
    } else {
        (97 + d - 10) as u8 as char
    }
}

/// A number written in a base: the remainder by the base last, the quotient before it.
pub open spec fn numeral(n: nat, base: nat, capital: bool) -> Seq<char>
    decreases n,
    when base >= 2
    via numeral_ends
{
    if n < base {
        seq![glyph(n, capital)]
    } else {
        numeral(n / base, base, capital).push(glyph(n % base, capital))
    }
}

#[via_fn]
proof fn numeral_ends(n: nat, base: nat, capital: bool) {
    if n >= base {
        assert(n / base < n) by (nonlinear_arith)
            requires
                n >= base,
                base >= 2,
        ;
    }
}

pub proof fn lemma_numeral(n: nat, base: nat, capital: bool)
    requires
        2 <= base <= 16,
    ensures
        numeral(n, base, capital).len() > 0,
        forall|i: int|
            0 <= i < numeral(n, base, capital).len() ==> {
                let c = #[trigger] numeral(n, base, capital)[i];
                ('0' <= c <= '9') || ('a' <= c <= 'f') || ('A' <= c <= 'F')
            },
    decreases n,
{
    if n < base {
        assert(numeral(n, base, capital)[0] == glyph(n, capital));
    } else {
        assert(n / base < n) by (nonlinear_arith)
            requires
                n >= base,
                base >= 2,
        ;
        assert(n % base < base) by (nonlinear_arith)
            requires
                base >= 2,
        ;
        lemma_numeral(n / base, base, capital);
    }
}

proof fn lemma_hex_reads(n: nat, capital: bool)
    ensures
        hex_value(numeral(n, 16, capital)) == Some(n),
    decreases n,
{
    let s = numeral(n, 16, capital);
    if n < 16 {
        assert(s.drop_last() =~= Seq::empty());
        assert(hex_value(s.drop_last()) == Some(0nat));
        assert(hex_digit(s.last()) == Some(n));
    } else {
        lemma_hex_reads(n / 16, capital);
        assert(s.drop_last() =~= numeral(n / 16, 16, capital));
        assert(hex_digit(s.last()) == Some(n % 16));
    }
}

proof fn lemma_decimal_reads(n: nat)
    ensures
        decimal_value(numeral(n, 10, false)) == Some(n),
        decimal(n) == numeral(n, 10, false),
    decreases n,
{
    let s = numeral(n, 10, false);
    if n < 10 {
        assert(s.drop_last() =~= Seq::empty());
        assert(decimal_value(s.drop_last()) == Some(0nat));
        assert(digit_value(s.last()) == Some(n));
    } else {
        lemma_decimal_reads(n / 10);
        assert(s.drop_last() =~= numeral(n / 10, 10, false));
        assert(digit_value(s.last()) == Some(n % 10));
    }
}

/// A number is written in decimal, and every number that fits is read back as it was
/// written, with a plus sign before it or without one.
pub proof fn law_decimal_numbers(n: nat)
    ensures
        decimal(n) == numeral(n, 10, false),
        n <= usize::MAX ==> usize_of(numeral(n, 10, false)) == Some(n as usize) && usize_of(
            seq!['+'] + numeral(n, 10, false),
        ) == Some(n as usize),
        n > usize::MAX ==> usize_of(numeral(n, 10, false)) is None,
        n <= u64::MAX ==> u64_of(numeral(n, 10, false)) == Some(n as u64),
        n > u64::MAX ==> u64_of(numeral(n, 10, false)) is None,
{
    lemma_decimal_reads(n);
    lemma_numeral(n, 10, false);
    let s = numeral(n, 10, false);
    assert(s[0] != '+');
    assert((seq!['+'] + s).drop_first() =~= s);
}

/// What is no number is not read as one: a text that holds anything but digits, behind a
/// plus sign perhaps, or nothing at all.
pub proof fn law_other_texts_are_no_numbers(s: Seq<char>, i: int)
    requires
        s.len() == 0 || (0 <= i < s.len() && !('0' <= s[i] <= '9') && (i > 0 || s[0] != '+')),
    ensures
        usize_of(s) is None,
        u64_of(s) is None,
{
    if s.len() > 0 {
        let t = if s[0] == '+' {
            s.drop_first()
        } else {
            s
        };
        let j = if s[0] == '+' {
            i - 1
        } else {
            i
        };
        if t.len() > 0 {
            lemma_no_decimal(t, j);
        }
    }
}

proof fn lemma_no_decimal(s: Seq<char>, i: int)
    requires
        0 <= i < s.len(),
        !('0' <= s[i] <= '9'),
    ensures
        decimal_value(s) is None,
    decreases s.len(),
{
    if i < s.len() - 1 {
        lemma_no_decimal(s.drop_last(), i);
    }
}

proof fn lemma_front_pad(a: Seq<char>, s: Seq<char>)
    requires
        forall|i: int| 0 <= i < a.len() ==> is_space(#[trigger] a[i]),
        s.len() > 0,
        !is_space(s[0]),
    ensures
        trimmed_front(a + s) == s,
    decreases a.len(),
{
    if a.len() == 0 {
        assert(a + s =~= s);
    } else {
        let b = a.drop_first();
        assert forall|i: int| 0 <= i < b.len() implies is_space(#[trigger] b[i]) by {
            assert(b[i] == a[i + 1]);
        }
        lemma_front_pad(b, s);
        assert((a + s).drop_first() =~= b + s);
        assert((a + s)[0] == a[0]);
    }
}

proof fn lemma_back_pad(s: Seq<char>, b: Seq<char>)
    requires
        forall|i: int| 0 <= i < b.len() ==> is_space(#[trigger] b[i]),
        s.len() > 0,
        !is_space(s.last()),
    ensures
        trimmed_back(s + b) == s,
    decreases b.len(),
{
    if b.len() == 0 {
        assert(s + b =~= s);
    } else {
        let c = b.drop_last();
        assert forall|i: int| 0 <= i < c.len() implies is_space(#[trigger] c[i]) by {
            assert(c[i] == b[i]);
        }
        lemma_back_pad(s, c);
        assert((s + b).drop_last() =~= s + c);
        assert((s + b).last() == b.last());
    }
}

/// Blanks, tabs and the ends of lines.
pub open spec fn blank(s: Seq<char>) -> bool {
    forall|i: int|
        0 <= i < s.len() ==> #[trigger] s[i] == ' ' || s[i] == '\t' || s[i] == '\r' || s[i] == '\n'
}

/// Trimming takes the white space off both ends and leaves what stands between, however it
/// looks inside.
pub proof fn law_trimming_takes_the_ends(a: Seq<char>, s: Seq<char>, b: Seq<char>)
    requires
        blank(a),
        blank(b),
        s.len() > 0,
        '!' <= s[0] <= '~',
        '!' <= s.last() <= '~',
    ensures
        trimmed(a + s + b) == s,
        trimmed(a).len() == 0,
{
    let t = s + b;
    assert(a + s + b =~= a + t);
    assert(t[0] == s[0]);
    lemma_front_pad(a, t);
    lemma_back_pad(s, b);
    lemma_blank(a);
}

proof fn lemma_blank(a: Seq<char>)
    requires
        blank(a),
    ensures
        trimmed_front(a).len() == 0,
        trimmed(a).len() == 0,
    decreases a.len(),
{
    if a.len() > 0 {
        assert(is_space(a[0]));
        let b = a.drop_first();
        assert forall|i: int| 0 <= i < b.len() implies #[trigger] b[i] == ' ' || b[i] == '\t'
            || b[i] == '\r' || b[i] == '\n' by {
            assert(b[i] == a[i + 1]);
        }
        lemma_blank(b);
    }
}

/// Case is that of the 26 letters: a capital and its small letter are one, every other
/// character stands for itself.
pub proof fn law_case_of_letters(s: Seq<char>, i: int)
    requires
        0 <= i < s.len(),
    ensures
        lowered(s).len() == s.len(),
        'A' <= s[i] <= 'Z' ==> lowered(s)[i] as u32 == s[i] as u32 + 32,
        !('A' <= s[i] <= 'Z') ==> lowered(s)[i] == s[i],
        lowered(lowered(s)) == lowered(s),
{
    let t = lowered(s);
    assert forall|j: int| 0 <= j < s.len() implies #[trigger] lowered(t)[j] == t[j] by {
        assert(t[j] == lower(s[j]));
    }
    assert(lowered(t) =~= t);
}

/// A part that stands in a text is found in it.
pub proof fn law_parts_are_found(a: Seq<char>, p: Seq<char>, b: Seq<char>)
    ensures
        contains_text(a + p + b, p),
{
    let s = a + p + b;
    assert(s.subrange(a.len() as int, (a.len() + p.len()) as int) =~= p);
    assert(occurs_at(s, p, a.len() as int));
}

/// A part that is found in a text stands in it: between what is before and what is behind.
pub proof fn law_found_parts_are_there(s: Seq<char>, p: Seq<char>) -> (ends: (Seq<char>, Seq<char>))
    requires
        contains_text(s, p),
    ensures
        s == ends.0 + p + ends.1,
{
    let i = choose|i: int| occurs_at(s, p, i);
    let ends = (s.take(i), s.skip(i + p.len()));
    assert(s =~= ends.0 + s.subrange(i, i + p.len()) + ends.1);
    ends
}

/// A suffix that is there comes off, and what is left with it again is the text.
pub proof fn law_suffix_comes_off(a: Seq<char>, s: Seq<char>)
    ensures
        without_suffix(a + s, s) == Some(a),
        without_suffix(a, s) matches Some(r) ==> a == r + s,
{
    assert((a + s).skip(a.len() as int) =~= s);
    assert((a + s).take(a.len() as int) =~= a);
    if let Some(r) = without_suffix(a, s) {
        assert(a =~= r + s);
    }
}

/// The dots at the end of a text come off, and no others.
pub proof fn law_final_dots_come_off(s: Seq<char>, n: nat)
    requires
        s.len() > 0 ==> s.last() != '.',
    ensures
        without_dots(s + Seq::new(n, |i: int| '.')) == s,
    decreases n,
{
    let d = Seq::new(n, |i: int| '.');
    if n == 0 {
        assert(s + d =~= s);
    } else {
        let e = Seq::new((n - 1) as nat, |i: int| '.');
        law_final_dots_come_off(s, (n - 1) as nat);
        assert((s + d).drop_last() =~= s + e);
    }
}

/// Texts with a separator between them.
pub open spec fn separated(v: Seq<Seq<char>>, c: char) -> Seq<char>
    decreases v.len(),
{
    if v.len() == 0 {
        Seq::empty()
    } else if v.len() == 1 {
        v[0]
    } else {
        v[0] + seq![c] + separated(v.drop_first(), c)
    }
}

proof fn lemma_place(s: Seq<char>, c: char)
    ensures
        0 <= place_of_char(s, c) <= s.len(),
        forall|j: int| 0 <= j < place_of_char(s, c) ==> #[trigger] s[j] != c,
        place_of_char(s, c) < s.len() ==> s[place_of_char(s, c)] == c,
    decreases s.len(),
{
    if s.len() > 0 && s[0] != c {
        let t = s.drop_first();
        lemma_place(t, c);
        assert forall|j: int| 0 <= j < place_of_char(s, c) implies #[trigger] s[j] != c by {
            if j > 0 {
                assert(t[j - 1] == s[j]);
            }
        }
    }
}

/// A text is cut at every separator and nowhere else: the parts with the separator between
/// them are the text, and none holds one.
pub proof fn law_text_is_cut_at_separators(s: Seq<char>, c: char)
    ensures
        parts(s, c).len() > 0,
        separated(parts(s, c), c) == s,
        forall|i: int| 0 <= i < parts(s, c).len() ==> !(#[trigger] parts(s, c)[i]).contains(c),
    decreases s.len(),
{
    let n = place_of_char(s, c);
    let p = parts(s, c);
    lemma_place(s, c);
    if n < s.len() {
        let t = s.skip(n + 1);
        law_text_is_cut_at_separators(t, c);
        assert(p.drop_first() =~= parts(t, c));
        assert(p[0] == s.take(n));
        assert(s.take(n) + seq![c] + t =~= s);
        assert forall|i: int| 0 <= i < p.len() implies !(#[trigger] p[i]).contains(c) by {
            if i > 0 {
                assert(p[i] == parts(t, c)[i - 1]);
            } else if p[0].contains(c) {
                let j = choose|j: int| 0 <= j < p[0].len() && p[0][j] == c;
                assert(s[j] == c);
            }
        }
    } else {
        assert forall|i: int| 0 <= i < p.len() implies !(#[trigger] p[i]).contains(c) by {
            if p[i].contains(c) {
                let j = choose|j: int| 0 <= j < s.len() && s[j] == c;
                assert(s[j] != c);
            }
        }
    }
}

proof fn lemma_before(s: Seq<char>, rest: Seq<char>)
    requires
        !s.contains(';'),
        rest.len() > 0 ==> rest[0] == ';',
    ensures
        before_semicolon(s + rest) == s,
    decreases s.len(),
{
    if s.len() == 0 {
        assert(s + rest =~= rest);
        assert(before_semicolon(rest) =~= s);
    } else {
        let t = s.drop_first();
        assert(s[0] != ';');
        assert(!t.contains(';')) by {
            if t.contains(';') {
                let j = choose|j: int| 0 <= j < t.len() && t[j] == ';';
                assert(s[j + 1] == ';');
            }
        }
        lemma_before(t, rest);
        assert((s + rest).drop_first() =~= t + rest);
        assert((s + rest)[0] == s[0]);
        assert(seq![s[0]] + t =~= s);
    }
}

/// The size of a chunk is the number that its line writes in base 16, in small letters or
/// capitals, with white space around it, and with an extension behind a semicolon or
/// without one.
pub proof fn law_chunk_size_is_hexadecimal(
    n: nat,
    capital: bool,
    a: Seq<char>,
    b: Seq<char>,
    rest: Seq<char>,
)
    requires
        blank(a),
        blank(b),
        rest.len() > 0 ==> rest[0] == ';',
    ensures
        n <= usize::MAX - 2 ==> chunk_size(
            encode_utf8(a + numeral(n, 16, capital) + b + rest),
        ) == Ok::<usize, HttpError>(n as usize),
        n > usize::MAX - 2 ==> chunk_size(encode_utf8(a + numeral(n, 16, capital) + b + rest))
            is Err,
{
    let s = numeral(n, 16, capital);
    let line = a + s + b;
    encode_utf8_valid_utf8(line + rest);
    encode_utf8_decode_utf8(line + rest);
    lemma_numeral(n, 16, capital);
    lemma_hex_reads(n, capital);
    assert(!line.contains(';')) by {
        if line.contains(';') {
            let j = choose|j: int| 0 <= j < line.len() && line[j] == ';';
            if j < a.len() {
                assert(line[j] == a[j]);
            } else if j < a.len() + s.len() {
                assert(line[j] == s[j - a.len()]);
            } else {
                assert(line[j] == b[j - a.len() - s.len()]);
            }
        }
    }
    lemma_before(line, rest);
    assert(s[s.len() - 1] == s.last());
    law_trimming_takes_the_ends(a, s, b);
    assert(s[0] != '+');
}

/// A chunk line that writes no number in base 16 has no size.
pub proof fn law_other_lines_have_no_size(s: Seq<char>, i: int)
    requires
        0 <= i < s.len(),
        '!' <= s[0] <= '~',
        '!' <= s.last() <= '~',
        !s.contains(';'),
        !('0' <= s[i] <= '9' || 'a' <= s[i] <= 'f' || 'A' <= s[i] <= 'F'),
        i > 0 || s[0] != '+',
    ensures
        chunk_size(encode_utf8(s)) == Err::<usize, HttpError>(HttpError::ChunkSize),
{
    let none = Seq::<char>::empty();
    encode_utf8_valid_utf8(s);
    encode_utf8_decode_utf8(s);
    lemma_before(s, none);
    assert(s + none =~= s);
    law_trimming_takes_the_ends(none, s, none);
    assert(none + s + none =~= s);
    if s[0] == '+' {
        lemma_no_hex(s.drop_first(), i - 1);
    } else {
        lemma_no_hex(s, i);
    }
}

proof fn lemma_no_hex(s: Seq<char>, i: int)
    requires
        0 <= i < s.len(),
        !('0' <= s[i] <= '9' || 'a' <= s[i] <= 'f' || 'A' <= s[i] <= 'F'),
    ensures
        hex_value(s) is None,
    decreases s.len(),
{
    if i < s.len() - 1 {
        lemma_no_hex(s.drop_last(), i);
    }
}

} // verus!
