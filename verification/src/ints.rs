//! Reading integers and trimming white space.
use vstd::prelude::*;

use crate::jsnum::{digit_value, is_digit, value_of_digit};

verus! {

/// Unicode white space.
pub open spec fn is_space(c: char) -> bool {
    ||| '\u{9}' <= c <= '\u{d}' || c == ' ' || c == '\u{85}' || c == '\u{a0}' || c == '\u{1680}'
    ||| '\u{2000}' <= c <= '\u{200a}'
    ||| c == '\u{2028}' || c == '\u{2029}' || c == '\u{202f}' || c == '\u{205f}' || c == '\u{3000}'
}

/// Whether `c` is Unicode white space.
pub fn space(c: char) -> (r: bool)
    ensures
        r == is_space(c),
{
    ('\u{9}' <= c && c <= '\u{d}') || c == ' ' || c == '\u{85}' || c == '\u{a0}' || c == '\u{1680}'
        || ('\u{2000}' <= c && c <= '\u{200a}') || c == '\u{2028}' || c == '\u{2029}'
        || c == '\u{202f}' || c == '\u{205f}' || c == '\u{3000}'
}

/// `t` is `s` without the white space at both ends.
pub open spec fn trimmed(s: Seq<char>) -> Seq<char>
    decreases s.len(),
{
    if s.len() > 0 && is_space(s[0]) {
        trimmed(s.subrange(1, s.len() as int))
    } else if s.len() > 0 && is_space(s.last()) {
        trimmed(s.drop_last())
    } else {
        s
    }
}

/// The bounds of `v[from..to]` without the white space at both ends.
pub fn trim(v: &Vec<char>, from: usize, to: usize) -> (r: (usize, usize))
    requires
        from <= to <= v@.len(),
    ensures
        from <= r.0 <= r.1 <= to,
        v@.subrange(r.0 as int, r.1 as int) == trimmed(v@.subrange(from as int, to as int)),
{
    let mut a: usize = from;
    while a < to && space(v[a])
        invariant
            from <= a <= to <= v@.len(),
            trimmed(v@.subrange(from as int, to as int)) == trimmed(v@.subrange(a as int, to as int)),
        decreases to - a,
    {
        proof {
            let s = v@.subrange(a as int, to as int);
            assert(s[0] == v@[a as int]);
            assert(s.subrange(1, s.len() as int) =~= v@.subrange(a + 1, to as int));
        }
        a += 1;
    }
    let mut z: usize = to;
    while a < z && space(v[z - 1])
        invariant
            a <= z <= to <= v@.len(),
            a < z ==> !is_space(v@[a as int]),
            trimmed(v@.subrange(a as int, to as int)) == trimmed(v@.subrange(a as int, z as int)),
        decreases z,
    {
        proof {
            let s = v@.subrange(a as int, z as int);
            assert(s[0] == v@[a as int]);
            assert(s.last() == v@[z - 1]);
            assert(s.drop_last() =~= v@.subrange(a as int, z - 1));
        }
        z -= 1;
    }
    proof {
        let s = v@.subrange(a as int, z as int);
        if a < z {
            assert(s[0] == v@[a as int]);
            assert(s.last() == v@[z - 1]);
        }
        assert(trimmed(s) == s);
    }
    (a, z)
}

/// The value of a string of digits.
pub open spec fn number_of(s: Seq<char>, radix: u32) -> nat
    decreases s.len(),
{
    if s.len() == 0 {
        0
    } else {
        number_of(s.drop_last(), radix) * (radix as nat) + digit_value(s.last(), radix)->0 as nat
    }
}

/// One digit or more, and nothing else.
pub open spec fn all_digits(s: Seq<char>, radix: u32) -> bool {
    s.len() > 0 && forall|i: int| 0 <= i < s.len() ==> is_digit(#[trigger] s[i], radix)
}

/// The number that a string of digits denotes, where it is at most `max`.
pub open spec fn unsigned_of(s: Seq<char>, radix: u32, max: nat) -> Option<nat> {
    if all_digits(s, radix) && number_of(s, radix) <= max {
        Some(number_of(s, radix))
    } else {
        None
    }
}

proof fn lemma_longer(s: Seq<char>, radix: u32, i: int)
    requires
        0 <= i <= s.len(),
        radix >= 1,
    ensures
        number_of(s.take(i), radix) <= number_of(s, radix),
    decreases s.len(),
{
    if i == s.len() {
        assert(s.take(i) =~= s);
    } else {
        let t = s.drop_last();
        lemma_longer(t, radix, i);
        assert(t.take(i) =~= s.take(i));
        let n = number_of(t, radix);
        assert(n * (radix as nat) >= n) by (nonlinear_arith) requires radix >= 1;
    }
}

/// The number that the digits `v[from..to]` denote, where it is at most `max`.
fn unsigned(v: &Vec<char>, from: usize, to: usize, radix: u32, max: u64) -> (r: Option<u64>)
    requires
        from <= to <= v@.len(),
        radix == 10 || radix == 16,
    ensures
        match unsigned_of(v@.subrange(from as int, to as int), radix, max as nat) {
            Some(n) => r == Some(n as u64) && n <= max,
            None => r is None,
        },
{
    let ghost s = v@.subrange(from as int, to as int);
    if from == to {
        return None;
    }
    let mut i: usize = from;
    let mut acc: u64 = 0;
    while i < to
        invariant
            from <= i <= to <= v@.len(),
            s == v@.subrange(from as int, to as int),
            radix == 10 || radix == 16,
            forall|j: int| 0 <= j < i - from ==> is_digit(#[trigger] s[j], radix),
            acc == number_of(s.take(i - from), radix),
            acc <= max,
        decreases to - i,
    {
        assert(s[i - from] == v@[i as int]);
        let d: u32 = match value_of_digit(v[i], radix) {
            Some(d) => d,
            None => return None,
        };
        if d >= radix {
            return None;
        }
        assert(acc * radix <= 0xffff_ffff_ffff_ffff * 16) by (nonlinear_arith)
            requires
                acc <= 0xffff_ffff_ffff_ffff,
                radix <= 16,
        ;
        let wide: u128 = acc as u128 * radix as u128 + d as u128;
        proof {
            let t = s.take(i - from + 1);
            assert(t.drop_last() =~= s.take(i - from));
            assert(t.last() == v@[i as int]);
            assert(wide == number_of(t, radix));
            lemma_longer(s, radix, i - from + 1);
        }
        if wide > max as u128 {
            return None;
        }
        acc = wide as u64;
        i += 1;
    }
    assert(s.take(to - from) =~= s);
    Some(acc)
}

/// The number that a decimal text denotes, as `u64` reads it: digits behind an
/// optional plus sign.
pub open spec fn u64_text(s: Seq<char>) -> Option<nat> {
    unsigned_of(
        if s.len() > 0 && s[0] == '+' { s.subrange(1, s.len() as int) } else { s },
        10,
        u64::MAX as nat,
    )
}

/// Reads `v[from..to]` as a decimal `u64`.
pub fn parse_u64(v: &Vec<char>, from: usize, to: usize) -> (r: Option<u64>)
    requires
        from <= to <= v@.len(),
    ensures
        match u64_text(v@.subrange(from as int, to as int)) {
            Some(n) => r == Some(n as u64) && n <= u64::MAX,
            None => r is None,
        },
{
    let ghost s = v@.subrange(from as int, to as int);
    if from < to && v[from] == '+' {
        assert(s[0] == v@[from as int]);
        assert(s.subrange(1, s.len() as int) =~= v@.subrange(from + 1, to as int));
        unsigned(v, from + 1, to, 10, u64::MAX)
    } else {
        assert(from < to ==> s[0] == v@[from as int]);
        unsigned(v, from, to, 10, u64::MAX)
    }
}

/// The number that a hexadecimal text denotes, as `i64` reads it: digits behind
/// an optional sign, within the range of the type.
pub open spec fn i64_hex_text(s: Seq<char>) -> Option<int> {
    if s.len() > 0 && s[0] == '-' {
        match unsigned_of(s.subrange(1, s.len() as int), 16, 0x8000_0000_0000_0000) {
            Some(n) => Some(-(n as int)),
            None => None,
        }
    } else {
        match unsigned_of(
            if s.len() > 0 && s[0] == '+' { s.subrange(1, s.len() as int) } else { s },
            16,
            0x7fff_ffff_ffff_ffff,
        ) {
            Some(n) => Some(n as int),
            None => None,
        }
    }
}

/// Reads `v[from..to]` as a hexadecimal `i64`.
pub fn parse_hex_i64(v: &Vec<char>, from: usize, to: usize) -> (r: Option<i64>)
    requires
        from <= to <= v@.len(),
    ensures
        match i64_hex_text(v@.subrange(from as int, to as int)) {
            Some(n) => r matches Some(x) && x == n,
            None => r is None,
        },
{
    let ghost s = v@.subrange(from as int, to as int);
    if from < to && v[from] == '-' {
        assert(s[0] == v@[from as int]);
        assert(s.subrange(1, s.len() as int) =~= v@.subrange(from + 1, to as int));
        match unsigned(v, from + 1, to, 16, 0x8000_0000_0000_0000) {
            Some(n) => if n == 0x8000_0000_0000_0000 {
                Some(i64::MIN)
            } else {
                Some(-(n as i64))
            },
            None => None,
        }
    } else {
        let start: usize = if from < to && v[from] == '+' { from + 1 } else { from };
        proof {
            assert(from < to ==> s[0] == v@[from as int]);
            assert(start == from + 1 ==> s.subrange(1, s.len() as int) =~= v@.subrange(start as int, to as int));
        }
        match unsigned(v, start, to, 16, 0x7fff_ffff_ffff_ffff) {
            Some(n) => Some(n as i64),
            None => None,
        }
    }
}

} // verus!
