//! IPv4 addresses as text.

use crate::numerals::law_decimal_numbers;
use crate::text::{chars_of, decimal, digit, push_decimal, same_chars};
use vstd::prelude::*;
use vstd::string::*;

verus! {

/// Octet `i` of an address, the most significant first.
pub open spec fn octet(ip: u32, i: int) -> nat {
    if i == 0 {
        (ip / 0x100_0000) as nat
    } else if i == 1 {
        (ip / 0x1_0000 % 256) as nat
    } else if i == 2 {
        (ip / 256 % 256) as nat
    } else {
        (ip % 256) as nat
    }
}

/// An address in dotted decimal.
pub open spec fn dotted_quad(ip: u32) -> Seq<char> {
    decimal(octet(ip, 0)) + seq!['.'] + decimal(octet(ip, 1)) + seq!['.'] + decimal(octet(ip, 2))
        + seq!['.'] + decimal(octet(ip, 3))
}

/// An address in dotted decimal.
pub fn ip_str(ip: u32) -> (s: String)
    ensures
        s@ == dotted_quad(ip),
{
    let mut s: String = String::new();
    push_decimal(&mut s, (ip / 0x100_0000) as u64);
    assert(s@ =~= decimal(octet(ip, 0)));
    s.push('.');
    assert(s@ =~= decimal(octet(ip, 0)) + seq!['.']);
    push_decimal(&mut s, (ip / 0x1_0000 % 256) as u64);
    let ghost a = s@;
    s.push('.');
    assert(s@ =~= a + seq!['.']);
    push_decimal(&mut s, (ip / 256 % 256) as u64);
    let ghost b = s@;
    s.push('.');
    assert(s@ =~= b + seq!['.']);
    push_decimal(&mut s, (ip % 256) as u64);
    s
}

/// A decimal digit.
spec fn is_digit(c: char) -> bool {
    '0' <= c && c <= '9'
}

/// The place of the first dot from `i` on, or the end.
fn dot_from(v: &[char], i: usize) -> (j: usize)
    requires
        i <= v@.len(),
    ensures
        i <= j <= v@.len(),
        forall|k: int| i <= k < j ==> v@[k] != '.',
        j < v@.len() ==> v@[j as int] == '.',
{
    let mut j: usize = i;
    while j < v.len() && v[j] != '.'
        invariant
            i <= j <= v@.len(),
            forall|k: int| i <= k < j ==> v@[k] != '.',
        decreases v.len() - j,
    {
        j += 1;
    }
    j
}

/// The number that at most three digits stand for; zero for anything else.
fn small_number(v: &[char], from: usize, to: usize) -> (n: u32)
    requires
        from <= to <= v@.len(),
    ensures
        n < 1000,
        forall|m: nat| m < 256 && v@.subrange(from as int, to as int) == decimal(m) ==> n == m,
{
    let ghost t = v@.subrange(from as int, to as int);
    proof {
        lemma_decimal_small();
    }
    if to - from == 1 {
        let a = v[from];
        if a >= '0' && a <= '9' {
            let n: u32 = a as u32 - 48;
            proof {
                assert forall|m: nat| m < 256 && t == decimal(m) implies n == m by {
                    assert(decimal(m).len() == 1);
                    assert(t[0] == a);
                }
            }
            return n;
        }
        proof {
            assert forall|m: nat| m < 256 && t == decimal(m) implies 0 == m by {
                assert(t[0] == a);
                assert(decimal(m).len() == 1);
                assert(is_digit(decimal(m)[0]));
            }
        }
        return 0;
    }
    if to - from == 2 {
        let a = v[from];
        let b = v[from + 1];
        if a >= '0' && a <= '9' && b >= '0' && b <= '9' {
            let n: u32 = (a as u32 - 48) * 10 + (b as u32 - 48);
            proof {
                assert forall|m: nat| m < 256 && t == decimal(m) implies n == m by {
                    assert(decimal(m).len() == 2);
                    assert(t[0] == a && t[1] == b);
                }
            }
            return n;
        }
        proof {
            assert forall|m: nat| m < 256 && t == decimal(m) implies 0 == m by {
                assert(t[0] == a && t[1] == b);
                assert(decimal(m).len() == 2);
                assert(is_digit(decimal(m)[0]) && is_digit(decimal(m)[1]));
            }
        }
        return 0;
    }
    if to - from == 3 {
        let a = v[from];
        let b = v[from + 1];
        let c = v[from + 2];
        if a >= '0' && a <= '9' && b >= '0' && b <= '9' && c >= '0' && c <= '9' {
            let n: u32 = (a as u32 - 48) * 100 + (b as u32 - 48) * 10 + (c as u32 - 48);
            proof {
                assert forall|m: nat| m < 256 && t == decimal(m) implies n == m by {
                    assert(decimal(m).len() == 3);
                    assert(t[0] == a && t[1] == b && t[2] == c);
                }
            }
            return n;
        }
        proof {
            assert forall|m: nat| m < 256 && t == decimal(m) implies 0 == m by {
                assert(t[0] == a && t[1] == b && t[2] == c);
                assert(decimal(m).len() == 3);
                assert(is_digit(decimal(m)[0]) && is_digit(decimal(m)[1]) && is_digit(
                    decimal(m)[2],
                ));
            }
        }
        return 0;
    }
    proof {
        assert forall|m: nat| m < 256 && t == decimal(m) implies 0 == m by {
            assert(1 <= decimal(m).len() <= 3);
        }
    }
    0
}

/// The digits of numbers below 256.
proof fn lemma_decimal_small()
    ensures
        forall|m: nat| #![trigger decimal(m)] m < 10 ==> decimal(m) == seq![digit(m)],
        forall|m: nat|
            #![trigger decimal(m)]
            10 <= m < 100 ==> decimal(m) == seq![digit(m / 10), digit(m % 10)],
        forall|m: nat|
            #![trigger decimal(m)]
            100 <= m < 256 ==> decimal(m) == seq![
                digit(m / 100),
                digit(m / 10 % 10),
                digit(m % 10),
            ],
        forall|d: nat| #![trigger digit(d)] d < 10 ==> digit(d) as u32 == d + 48,
{
    assert forall|m: nat| #![trigger decimal(m)] 10 <= m < 100 implies decimal(m) == seq![
        digit(m / 10),
        digit(m % 10),
    ] by {
        reveal_with_fuel(decimal, 3);
        assert(decimal(m) =~= seq![digit(m / 10), digit(m % 10)]);
    }
    assert forall|m: nat| #![trigger decimal(m)] 100 <= m < 256 implies decimal(m) == seq![
        digit(m / 100),
        digit(m / 10 % 10),
        digit(m % 10),
    ] by {
        reveal_with_fuel(decimal, 4);
        assert(m / 10 / 10 == m / 100);
        assert(decimal(m) =~= seq![digit(m / 100), digit(m / 10 % 10), digit(m % 10)]);
    }
}

proof fn lemma_no_dots(m: nat)
    requires
        m < 256,
    ensures
        1 <= decimal(m).len() <= 3,
        forall|i: int| 0 <= i < decimal(m).len() ==> decimal(m)[i] != '.',
{
    lemma_decimal_small();
}

/// Where the dots of an address stand.
proof fn lemma_parts(ip: u32, a: int, b: int, c: int)
    requires
        ({
            let s = dotted_quad(ip);
            &&& 0 <= a < b < c < s.len()
            &&& s[a] == '.' && s[b] == '.' && s[c] == '.'
            &&& forall|k: int| 0 <= k < a ==> s[k] != '.'
            &&& forall|k: int| a < k < b ==> s[k] != '.'
            &&& forall|k: int| b < k < c ==> s[k] != '.'
        }),
    ensures
        dotted_quad(ip).subrange(0, a) == decimal(octet(ip, 0)),
        dotted_quad(ip).subrange(a + 1, b) == decimal(octet(ip, 1)),
        dotted_quad(ip).subrange(b + 1, c) == decimal(octet(ip, 2)),
        dotted_quad(ip).subrange(c + 1, dotted_quad(ip).len() as int) == decimal(octet(ip, 3)),
{
    let s = dotted_quad(ip);
    let d0 = decimal(octet(ip, 0));
    let d1 = decimal(octet(ip, 1));
    let d2 = decimal(octet(ip, 2));
    let d3 = decimal(octet(ip, 3));
    lemma_no_dots(octet(ip, 0));
    lemma_no_dots(octet(ip, 1));
    lemma_no_dots(octet(ip, 2));
    lemma_no_dots(octet(ip, 3));
    let p = d0.len() as int;
    let q = p + 1 + d1.len();
    let r = q + 1 + d2.len();
    assert(s.len() == r + 1 + d3.len());
    assert(s[p] == '.');
    assert(s[q] == '.');
    assert(s[r] == '.');
    assert forall|k: int| 0 <= k < p implies s[k] != '.' by {
        assert(s[k] == d0[k]);
    }
    assert forall|k: int| p < k < q implies s[k] != '.' by {
        assert(s[k] == d1[k - p - 1]);
    }
    assert forall|k: int| q < k < r implies s[k] != '.' by {
        assert(s[k] == d2[k - q - 1]);
    }
    assert(a == p);
    assert(b == q);
    assert(c == r);
    assert(s.subrange(0, a) =~= d0);
    assert(s.subrange(a + 1, b) =~= d1);
    assert(s.subrange(b + 1, c) =~= d2);
    assert(s.subrange(c + 1, s.len() as int) =~= d3);
}

/// An address in dotted decimal has three dots.
proof fn lemma_has_dots(ip: u32) -> (r: (int, int, int))
    ensures
        ({
            let s = dotted_quad(ip);
            &&& 0 <= r.0 < r.1 < r.2 < s.len()
            &&& s[r.0] == '.' && s[r.1] == '.' && s[r.2] == '.'
        }),
{
    let p = decimal(octet(ip, 0)).len() as int;
    let q = p + 1 + decimal(octet(ip, 1)).len();
    let r = q + 1 + decimal(octet(ip, 2)).len();
    lemma_no_dots(octet(ip, 3));
    (p, q, r)
}

proof fn lemma_octets(ip: u32)
    ensures
        ip == octet(ip, 0) * 0x100_0000 + octet(ip, 1) * 0x1_0000 + octet(ip, 2) * 256 + octet(ip, 3),
        octet(ip, 0) < 256,
{
    let n = ip as int;
    assert(n / 0x1_0000 == n / 256 / 256 && n / 0x100_0000 == n / 0x1_0000 / 256);
}

/// No two addresses are written alike.
pub proof fn law_addresses_are_written_apart(x: u32, y: u32)
    requires
        dotted_quad(x) == dotted_quad(y),
    ensures
        x == y,
{
    let s = dotted_quad(x);
    let d0 = decimal(octet(x, 0));
    let d1 = decimal(octet(x, 1));
    let d2 = decimal(octet(x, 2));
    let d3 = decimal(octet(x, 3));
    lemma_no_dots(octet(x, 0));
    lemma_no_dots(octet(x, 1));
    lemma_no_dots(octet(x, 2));
    lemma_no_dots(octet(x, 3));
    let p = d0.len() as int;
    let q = p + 1 + d1.len();
    let r = q + 1 + d2.len();
    assert(s.len() == r + 1 + d3.len());
    assert(s[p] == '.' && s[q] == '.' && s[r] == '.');
    assert forall|k: int| 0 <= k < p implies s[k] != '.' by {
        assert(s[k] == d0[k]);
    }
    assert forall|k: int| p < k < q implies s[k] != '.' by {
        assert(s[k] == d1[k - p - 1]);
    }
    assert forall|k: int| q < k < r implies s[k] != '.' by {
        assert(s[k] == d2[k - q - 1]);
    }
    lemma_parts(x, p, q, r);
    lemma_parts(y, p, q, r);
    law_decimal_numbers(octet(x, 0));
    law_decimal_numbers(octet(x, 1));
    law_decimal_numbers(octet(x, 2));
    law_decimal_numbers(octet(x, 3));
    law_decimal_numbers(octet(y, 0));
    law_decimal_numbers(octet(y, 1));
    law_decimal_numbers(octet(y, 2));
    law_decimal_numbers(octet(y, 3));
    lemma_octets(x);
    lemma_octets(y);
}

/// Reads an address in dotted decimal: four numbers below 256 without leading zeros.
pub fn parse_ip(s: &str) -> (r: Option<u32>)
    ensures
        r matches Some(ip) ==> s@ == dotted_quad(ip),
        r is None ==> forall|ip: u32| #[trigger] dotted_quad(ip) != s@,
{
    let v = chars_of(s);
    let len: usize = v.len();
    let a: usize = dot_from(v.as_slice(), 0);
    if a >= len {
        proof {
            assert forall|ip: u32| #[trigger] dotted_quad(ip) != s@ by {
                let d = lemma_has_dots(ip);
                if dotted_quad(ip) == s@ {
                    assert(v@[d.0] == '.');
                }
            }
        }
        return None;
    }
    let b: usize = dot_from(v.as_slice(), a + 1);
    if b >= len {
        proof {
            assert forall|ip: u32| #[trigger] dotted_quad(ip) != s@ by {
                let d = lemma_has_dots(ip);
                if dotted_quad(ip) == s@ {
                    assert(v@[d.0] == '.' && v@[d.1] == '.');
                }
            }
        }
        return None;
    }
    let c: usize = dot_from(v.as_slice(), b + 1);
    if c >= len {
        proof {
            assert forall|ip: u32| #[trigger] dotted_quad(ip) != s@ by {
                let d = lemma_has_dots(ip);
                if dotted_quad(ip) == s@ {
                    assert(v@[d.0] == '.' && v@[d.1] == '.' && v@[d.2] == '.');
                }
            }
        }
        return None;
    }
    let w: u32 = small_number(v.as_slice(), 0, a);
    let x: u32 = small_number(v.as_slice(), a + 1, b);
    let y: u32 = small_number(v.as_slice(), b + 1, c);
    let z: u32 = small_number(v.as_slice(), c + 1, len);
    let n: u32 = if w < 256 && x < 256 && y < 256 && z < 256 {
        w * 0x100_0000 + x * 0x1_0000 + y * 256 + z
    } else {
        0
    };
    proof {
        assert forall|ip: u32| #[trigger] dotted_quad(ip) == s@ implies ip == n by {
            lemma_parts(ip, a as int, b as int, c as int);
            assert(octet(ip, 0) < 256 && octet(ip, 1) < 256 && octet(ip, 2) < 256 && octet(ip, 3)
                < 256);
            assert(w == octet(ip, 0));
            assert(x == octet(ip, 1));
            assert(y == octet(ip, 2));
            assert(z == octet(ip, 3));
        }
    }
    let back = ip_str(n);
    let again = chars_of(back.as_str());
    if same_chars(again.as_slice(), v.as_slice()) {
        Some(n)
    } else {
        None
    }
}

} // verus!
