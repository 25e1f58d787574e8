//! Texts as numbers, and bytes and characters as text.
use vstd::prelude::*;

#[allow(unused_imports)]
use crate::b64::{decoded, encoded, letter, octets, passed_over, sextets, value};
#[allow(unused_imports)]
use crate::floats::{ArithOp, FloatsV};
#[allow(unused_imports)]
use crate::ident::{dashed, hex_text, stamped};
#[allow(unused_imports)]
use crate::ints::{all_digits, i64_hex_text, is_space, number_of, trimmed, u64_text};
#[allow(unused_imports)]
use crate::jsnum::{
    bits_of_int, bits_of_nat, digit_value, digits_end, drop_blank, is_blank, is_digit, is_nan,
    json_byte, json_bytes, negated, skip_blank, without_blanks,
};
#[allow(unused_imports)]
use crate::text::{digit_char, latin, utf16, utf16_char, zero_padded};

verus! {

// ------------------------------------------------------------------------------ numbers

/// The digits, in either case, and only those below the base.
pub proof fn lemma_digit(c: char, d: int)
    ensures
        0 <= d < 10 ==> digit_value(digit_char(d), 10) == Some(d as u32),
        0 <= d < 16 ==> digit_value(digit_char(d), 16) == Some(d as u32),
        digit_value('A', 16) == Some(10u32) && digit_value('F', 16) == Some(15u32),
        is_digit(c, 10) <==> '0' <= c <= '9',
        is_digit(c, 16) <==> '0' <= c <= '9' || 'a' <= c <= 'f' || 'A' <= c <= 'F',
        is_digit(c, 2) <==> c == '0' || c == '1',
        is_digit(c, 8) <==> '0' <= c <= '7',
{
}

/// What `parseInt` skips at both ends: white space and the byte order mark.
pub proof fn lemma_blank(c: char)
    ensures
        is_blank(c) <==> is_space(c) || c == '\u{feff}',
        '!' <= c <= '~' ==> !is_blank(c),
        is_blank(' ') && is_blank('\t') && is_blank('\n') && is_blank('\r'),
{
}

proof fn lemma_skip(s: Seq<char>, i: int)
    requires
        0 <= i <= s.len(),
    ensures
        i <= skip_blank(s, i) <= s.len(),
        forall|j: int| i <= j < skip_blank(s, i) ==> is_blank(#[trigger] s[j]),
        skip_blank(s, i) < s.len() ==> !is_blank(s[skip_blank(s, i)]),
    decreases s.len() - i,
{
    if i < s.len() && is_blank(s[i]) {
        lemma_skip(s, i + 1);
    }
}

proof fn lemma_drop(s: Seq<char>, lo: int, j: int)
    requires
        0 <= lo <= j <= s.len(),
    ensures
        lo <= drop_blank(s, lo, j) <= j,
        forall|k: int| drop_blank(s, lo, j) <= k < j ==> is_blank(#[trigger] s[k]),
        drop_blank(s, lo, j) > lo ==> !is_blank(s[drop_blank(s, lo, j) - 1]),
    decreases j - lo,
{
    if lo < j && is_blank(s[j - 1]) {
        lemma_drop(s, lo, j - 1);
    }
}

/// Blanks are taken off both ends, all of them, and nothing else.
pub proof fn lemma_without_blanks(s: Seq<char>)
    ensures
        ({
            let t = without_blanks(s);
            &&& t.len() > 0 ==> !is_blank(t[0]) && !is_blank(t.last())
            &&& exists|a: int, b: int|
                0 <= a <= b <= s.len() && t == #[trigger] s.subrange(a, b) && (forall|i: int|
                    0 <= i < a || b <= i < s.len() ==> is_blank(#[trigger] s[i]))
        }),
{
    let a = skip_blank(s, 0);
    lemma_skip(s, 0);
    lemma_drop(s, a, s.len() as int);
    let b = drop_blank(s, a, s.len() as int);
    let t = without_blanks(s);
    assert(t == s.subrange(a, b));
    if t.len() > 0 {
        assert(t[0] == s[a]);
        assert(t.last() == s[b - 1]);
    }
}

proof fn lemma_no_blanks(s: Seq<char>)
    requires
        s.len() > 0,
        !is_blank(s[0]),
        !is_blank(s.last()),
    ensures
        without_blanks(s) == s,
{
    assert(skip_blank(s, 0) == 0);
    assert(drop_blank(s, 0, s.len() as int) == s.len());
    assert(s.subrange(0, s.len() as int) =~= s);
}

proof fn lemma_run_of_digits(t: Seq<char>, i: int, j: int, radix: u32)
    requires
        0 <= i <= j <= t.len(),
        forall|k: int| i <= k < j ==> is_digit(#[trigger] t[k], radix),
        j < t.len() ==> !is_digit(t[j], radix),
    ensures
        digits_end(t, i, radix) == j,
    decreases j - i,
{
    if i < j {
        assert(is_digit(t[i], radix));
        lemma_run_of_digits(t, i + 1, j, radix);
    }
}

/// What `parseInt` reads of a text of decimal digits: their value. A minus sign turns it
/// around, a plus sign changes nothing, and what follows the digits is not read.
pub proof fn lemma_parse_int(fl: FloatsV, d: Seq<char>, rest: Seq<char>)
    requires
        d.len() > 0,
        d[0] != '0',
        forall|i: int| 0 <= i < d.len() ==> '0' <= #[trigger] d[i] <= '9',
        rest.len() > 0 ==> !('0' <= rest[0] <= '9') && !is_blank(rest.last()),
    ensures
        ({
            let n = fl.digits_value(d, 0, d.len() as int, 10);
            &&& fl.parse_int_of(d + rest, 0) == n
            &&& fl.parse_int_of(d + rest, 10) == n
            &&& fl.parse_int_of(seq!['-'] + d + rest, 0) == negated(n)
            &&& fl.parse_int_of(seq!['+'] + d + rest, 0) == n
        }),
{
    let m = d.len() as int;
    let t = d + rest;
    let last = if rest.len() > 0 { rest.last() } else { d.last() };
    assert(t.last() == last);
    assert(t[0] == d[0]);
    lemma_no_blanks(t);
    assert forall|k: int| 0 <= k < m implies is_digit(#[trigger] t[k], 10) by {
        assert(t[k] == d[k]);
    }
    if rest.len() > 0 {
        assert(t[m] == rest[0]);
    }
    lemma_run_of_digits(t, 0, m, 10);
    lemma_same_value(fl, d, t, 0, m);
    let minus = seq!['-'] + d + rest;
    let plus = seq!['+'] + d + rest;
    lemma_signed(fl, d, rest, '-');
    lemma_signed(fl, d, rest, '+');
}

proof fn lemma_signed(fl: FloatsV, d: Seq<char>, rest: Seq<char>, c: char)
    requires
        c == '-' || c == '+',
        d.len() > 0,
        d[0] != '0',
        forall|i: int| 0 <= i < d.len() ==> '0' <= #[trigger] d[i] <= '9',
        rest.len() > 0 ==> !('0' <= rest[0] <= '9') && !is_blank(rest.last()),
    ensures
        fl.parse_int_of(seq![c] + d + rest, 0) == (if c == '-' {
            negated(fl.digits_value(d, 0, d.len() as int, 10))
        } else {
            fl.digits_value(d, 0, d.len() as int, 10)
        }),
{
    let t = seq![c] + d + rest;
    let m = d.len() as int;
    let last = if rest.len() > 0 { rest.last() } else { d.last() };
    assert(t.last() == last);
    assert(t[0] == c);
    assert(t[1] == d[0]);
    lemma_no_blanks(t);
    assert forall|k: int| 1 <= k < m + 1 implies is_digit(#[trigger] t[k], 10) by {
        assert(t[k] == d[k - 1]);
    }
    if rest.len() > 0 {
        assert(t[m + 1] == rest[0]);
    }
    lemma_run_of_digits(t, 1, m + 1, 10);
    lemma_same_value(fl, d, t, 1, m);
}

proof fn lemma_same_value(fl: FloatsV, d: Seq<char>, t: Seq<char>, i: int, n: int)
    requires
        0 <= n <= d.len(),
        0 <= i,
        i + d.len() <= t.len(),
        forall|k: int| 0 <= k < d.len() ==> #[trigger] d[k] == t[i + k],
    ensures
        fl.digits_value(t, i, i + n, 10) == fl.digits_value(d, 0, n, 10),
    decreases n,
{
    if n > 0 {
        lemma_same_value(fl, d, t, i, n - 1);
        assert(d[n - 1] == t[i + (n - 1)]);
    }
}

/// The value of digits: each one more makes it the base times what it was, and the digit.
pub proof fn lemma_digits_value(fl: FloatsV, t: Seq<char>, n: int, radix: u32)
    requires
        0 <= n < t.len(),
    ensures
        fl.digits_value(t, 0, 0, radix) == 0,
        fl.digits_value(t, 0, n + 1, radix) == (fl.op)(
            ArithOp::Add,
            (fl.op)(
                ArithOp::Mul,
                fl.digits_value(t, 0, n, radix),
                bits_of_nat(radix as nat) as u64,
            ),
            bits_of_nat(digit_value(t[n], radix)->0 as nat) as u64,
        ),
{
}

/// What `parseInt` reads of a text that starts with no digit: a NaN.
pub proof fn lemma_parse_nothing(fl: FloatsV, t: Seq<char>)
    requires
        t.len() > 0,
        !is_blank(t[0]),
        !is_blank(t.last()),
        !('0' <= t[0] <= '9'),
        t[0] != '+' && t[0] != '-',
    ensures
        fl.parse_int_of(t, 0) == 0x7ff8_0000_0000_0000,
        fl.parse_int_of(seq![], 0) == 0x7ff8_0000_0000_0000,
{
    lemma_no_blanks(t);
    let e = Seq::<char>::empty();
    assert(without_blanks(e) =~= e);
}

/// What `Number` reads: nothing is zero, digits behind `0x` are a whole number, and
/// anything else is read as a decimal fraction, without the white space around it.
pub proof fn lemma_number(fl: FloatsV, s: Seq<char>, h: Seq<char>)
    ensures
        trimmed(s).len() == 0 ==> fl.number_text(s) == 0,
        trimmed(s) == seq!['0', 'x'] + h && i64_hex_text(h) is Some ==> fl.number_text(s)
            == bits_of_int(i64_hex_text(h)->0) as u64,
        trimmed(s) == seq!['0', 'X'] + h && i64_hex_text(h) is Some ==> fl.number_text(s)
            == bits_of_int(i64_hex_text(h)->0) as u64,
        trimmed(s) == seq!['0', 'x'] + h && i64_hex_text(h) is None ==> fl.number_text(s)
            == 0x7ff8_0000_0000_0000,
        trimmed(s).len() > 0 && trimmed(s)[0] != '0' ==> fl.number_text(s) == (fl.parsed)(trimmed(s)),
{
    if trimmed(s) == seq!['0', 'x'] + h || trimmed(s) == seq!['0', 'X'] + h {
        assert(trimmed(s).subrange(2, trimmed(s).len() as int) =~= h);
    }
}

/// How the numbers that are no numbers and no finite ones are written.
pub proof fn lemma_special_text(fl: FloatsV, b: u64)
    ensures
        is_nan(b) ==> fl.num_text(b) == "NaN"@,
        fl.num_text(0x7ff0_0000_0000_0000) == "Infinity"@,
        fl.num_text(0xfff0_0000_0000_0000) == "-Infinity"@,
{
}

/// A signed hexadecimal number: digits behind an optional sign, within sixty-four bits.
pub proof fn lemma_hex_number(h: Seq<char>)
    requires
        all_digits(h, 16),
    ensures
        number_of(h, 16) <= 0x7fff_ffff_ffff_ffff ==> i64_hex_text(h) == Some(
            number_of(h, 16) as int,
        ),
        number_of(h, 16) > 0x7fff_ffff_ffff_ffff ==> i64_hex_text(h) is None,
        number_of(h, 16) <= 0x8000_0000_0000_0000 ==> i64_hex_text(seq!['-'] + h) == Some(
            -(number_of(h, 16) as int),
        ),
        number_of(h, 16) <= 0x7fff_ffff_ffff_ffff ==> i64_hex_text(seq!['+'] + h) == Some(
            number_of(h, 16) as int,
        ),
        i64_hex_text(seq![]) is None,
{
    assert(is_digit(h[0], 16));
    assert((seq!['-'] + h).subrange(1, h.len() as int + 1) =~= h);
    assert((seq!['+'] + h).subrange(1, h.len() as int + 1) =~= h);
}

/// A decimal number: digits behind an optional plus sign, within sixty-four bits.
pub proof fn lemma_unsigned_number(d: Seq<char>)
    requires
        all_digits(d, 10),
    ensures
        number_of(d, 10) <= u64::MAX ==> u64_text(d) == Some(number_of(d, 10)) && u64_text(
            seq!['+'] + d,
        ) == Some(number_of(d, 10)),
        number_of(d, 10) > u64::MAX ==> u64_text(d) is None,
        u64_text(seq![]) is None,
        u64_text(seq!['-'] + d) is None,
{
    assert(is_digit(d[0], 10));
    assert((seq!['+'] + d).subrange(1, d.len() as int + 1) =~= d);
    let m = seq!['-'] + d;
    assert(m[0] == '-');
    assert(!is_digit(m[0], 10));
}

/// The value of digits, one more.
pub proof fn lemma_number_of(s: Seq<char>, c: char, radix: u32)
    ensures
        number_of(seq![], radix) == 0,
        number_of(s.push(c), radix) == number_of(s, radix) * (radix as nat) + digit_value(c, radix)->0,
{
    assert(s.push(c).drop_last() =~= s);
}

// ------------------------------------------------------------------------ bytes as text

/// What a JSON string makes of a byte.
pub proof fn lemma_json_bytes(b: u8, s: Seq<u8>)
    ensures
        json_byte(0x22) == seq![0x5cu8, 0x22u8],
        json_byte(0x5c) == seq![0x5cu8, 0x5cu8],
        json_byte(0x0a) == seq![0x5cu8, 0x6eu8],
        json_byte(0x0d) == seq![0x5cu8, 0x72u8],
        json_byte(0x09) == seq![0x5cu8, 0x74u8],
        json_byte(0x08) == seq![0x5cu8, 0x62u8],
        json_byte(0x0c) == seq![0x5cu8, 0x66u8],
        json_byte(0x1f) == seq![0x5cu8, 0x75u8, 0x30u8, 0x30u8, 0x31u8, 0x66u8],
        b >= 0x20 && b != 0x22 && b != 0x5c ==> json_byte(b) == seq![b],
        json_bytes(seq![]) == Seq::<u8>::empty(),
        json_bytes(s.push(b)) == json_bytes(s) + json_byte(b),
{
    assert(s.push(b).drop_last() =~= s);
    assert(json_byte(0x1f) =~= seq![0x5cu8, 0x75u8, 0x30u8, 0x30u8, 0x31u8, 0x66u8]);
}

/// Bytes in hexadecimal: two digits each, the higher one first, in their order.
pub proof fn lemma_hex_text(b: Seq<u8>, n: int)
    requires
        0 <= n <= b.len(),
    ensures
        hex_text(b, n).len() == 2 * n,
        forall|i: int|
            0 <= i < n ==> hex_text(b, n)[2 * i] == #[trigger] digit_char(b[i] as int / 16) as u8,
        forall|i: int|
            0 <= i < n ==> hex_text(b, n)[2 * i + 1] == #[trigger] digit_char(b[i] as int % 16) as u8,
    decreases n,
{
    if n > 0 {
        lemma_hex_text(b, n - 1);
        let t = hex_text(b, n - 1);
        assert forall|i: int| 0 <= i < n implies hex_text(b, n)[2 * i] == #[trigger] digit_char(
            b[i] as int / 16,
        ) as u8 by {
            if i < n - 1 {
                assert(hex_text(b, n)[2 * i] == t[2 * i]);
            }
        }
        assert forall|i: int| 0 <= i < n implies hex_text(b, n)[2 * i + 1] == #[trigger] digit_char(
            b[i] as int % 16,
        ) as u8 by {
            if i < n - 1 {
                assert(hex_text(b, n)[2 * i + 1] == t[2 * i + 1]);
            }
        }
    }
}

/// A random identifier keeps every byte but the two that it is stamped in, and of those the
/// low bits.
pub proof fn lemma_stamped(b: Seq<u8>)
    requires
        b.len() == 16,
    ensures
        stamped(b).len() == 16,
        forall|i: int| 0 <= i < 16 && i != 6 && i != 8 ==> #[trigger] stamped(b)[i] == b[i],
        stamped(b)[6] / 16 == 4 && stamped(b)[6] % 16 == b[6] % 16,
        stamped(b)[8] / 64 == 2 && stamped(b)[8] % 64 == b[8] % 64,
{
}

/// The digits of an identifier are those of its bytes, in their order.
pub proof fn lemma_dashed_digits(b: Seq<u8>, n: int)
    requires
        0 <= n < b.len(),
    ensures
        ({
            let two = seq![
                digit_char(b[n] as int / 16) as u8,
                digit_char(b[n] as int % 16) as u8,
            ];
            &&& n == 4 || n == 6 || n == 8 || n == 10 ==> dashed(b, n + 1) == dashed(b, n) + seq![
                '-' as u8,
            ] + two
            &&& n != 4 && n != 6 && n != 8 && n != 10 ==> dashed(b, n + 1) == dashed(b, n) + two
        }),
{
    let two = seq![digit_char(b[n] as int / 16) as u8, digit_char(b[n] as int % 16) as u8];
    assert(dashed(b, n) + Seq::<u8>::empty() + two =~= dashed(b, n) + two);
}

/// The alphabet of base64, and the two letters that stand for the same in the other
/// alphabet.
pub proof fn lemma_alphabet(v: int, c: u8)
    ensures
        0 <= v < 26 ==> letter(v) == 'A' as u8 + v && value((0x41 + v) as u8) == v,
        26 <= v < 52 ==> letter(v) == 'a' as u8 + (v - 26) && value((0x61 + v - 26) as u8) == v,
        52 <= v < 62 ==> letter(v) == '0' as u8 + (v - 52) && value((0x30 + v - 52) as u8) == v,
        letter(62) == '+' as u8 && letter(63) == '/' as u8,
        value('+' as u8) == 62 && value('/' as u8) == 63,
        value('-' as u8) == 62 && value('_' as u8) == 63,
        passed_over(c) <==> c == '=' as u8 || c == '\n' as u8 || c == '\r' as u8 || c == ' ' as u8
            || c == '\t' as u8,
{
}

/// Three bytes make four letters of six bits each, the highest bits first.
pub proof fn lemma_three_bytes(a: u8, b: u8, c: u8, rest: Seq<u8>)
    ensures
        encoded(seq![a, b, c] + rest) =~= seq![
            letter(a as int / 4),
            letter(a as int % 4 * 16 + b as int / 16),
            letter(b as int % 16 * 4 + c as int / 64),
            letter(c as int % 64),
        ] + encoded(rest),
        encoded(seq![a]) =~= seq![
            letter(a as int / 4),
            letter(a as int % 4 * 16),
            '=' as u8,
            '=' as u8,
        ],
        encoded(seq![a, b]) =~= seq![
            letter(a as int / 4),
            letter(a as int % 4 * 16 + b as int / 16),
            letter(b as int % 16 * 4),
            '=' as u8,
        ],
        encoded(seq![]) =~= Seq::<u8>::empty(),
{
    let s = seq![a, b, c] + rest;
    assert(s.skip(3) =~= rest);
    assert(s[0] == a && s[1] == b && s[2] == c);
}

/// A text is decoded where every byte of it is a letter or passed over.
pub proof fn lemma_decodable(s: Seq<u8>)
    ensures
        decoded(s) is Some <==> forall|i: int|
            0 <= i < s.len() ==> passed_over(#[trigger] s[i]) || value(s[i]) != 255,
        decoded(s) matches Some(d) ==> d == octets(sextets(s)),
{
}

/// The code units of a text: one for a character of the first plane, and for any other two
/// that hold its number; those of a text are those of its characters, in their order.
pub proof fn lemma_code_units(s: Seq<char>, c: char)
    ensures
        (c as u32) < 0x10000 ==> utf16_char(c) == seq![c as u32 as u16],
        (c as u32) >= 0x10000 ==> utf16_char(c).len() == 2 && 0xd800 <= utf16_char(c)[0] <= 0xdbff
            && 0xdc00 <= utf16_char(c)[1] <= 0xdfff && (utf16_char(c)[0] - 0xd800) * 0x400 + (
        utf16_char(c)[1] - 0xdc00) + 0x10000 == c as u32,
        utf16(seq![]) == Seq::<u16>::empty(),
        utf16(s.push(c)) == utf16(s) + utf16_char(c),
{
    assert(s.push(c).drop_last() =~= s);
    let u = c as u32;
    if u >= 0x10000 {
        assert(u <= 0x10ffff);
        let w = u - 0x10000;
        assert(w == w / 0x400 * 0x400 + w % 0x400);
        assert(w / 0x400 < 0x400);
    }
}

/// Zeros are put in front until a text has its width; a longer one stays.
pub proof fn lemma_padded(s: Seq<char>, width: nat)
    ensures
        s.len() >= width ==> zero_padded(s, width) == s,
        s.len() < width ==> zero_padded(s, width).len() == width && zero_padded(s, width).skip(
            width - s.len(),
        ) == s && forall|i: int|
            0 <= i < width - s.len() ==> #[trigger] zero_padded(s, width)[i] == '0',
{
    if s.len() < width {
        assert(zero_padded(s, width).skip(width - s.len()) =~= s);
    }
}

/// Bytes as characters, one for one.
pub proof fn lemma_latin(b: Seq<u8>)
    ensures
        latin(b).len() == b.len(),
        forall|i: int| 0 <= i < b.len() ==> #[trigger] latin(b)[i] == b[i] as char,
{
}

} // verus!
