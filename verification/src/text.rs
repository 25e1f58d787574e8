//! Text helpers: growing strings, comparing them, writing and reading integers.
//!
//! A string is modelled by its characters (`Seq<char>`), a byte string by its
//! bytes (`Seq<u8>`).
use vstd::prelude::*;
#[allow(unused_imports)]
use vstd::utf8::{decode_utf8, encode_utf8, encode_utf8_decode_utf8, valid_utf8};

verus! {

/// `std::string::String::push`: appends one character.
pub assume_specification[ std::string::String::push ](s: &mut String, c: char)
    ensures
        final(s)@ == old(s)@.push(c),
;

/// `std::string::String::push_str`: appends the characters of `t`.
pub assume_specification[ std::string::String::push_str ](s: &mut String, t: &str)
    ensures
        final(s)@ == old(s)@ + t@,
;

/// Whether two texts are the same.
pub fn str_eq(a: &str, b: &str) -> (r: bool)
    ensures
        r == (a@ == b@),
{
    proof {
        encode_utf8_decode_utf8(a@);
        encode_utf8_decode_utf8(b@);
    }
    bytes_eq(a.as_bytes(), b.as_bytes())
}

/// `std::str::from_utf8`: the text of `v` when `v` is well formed UTF-8.
#[verifier::external_body]
pub(crate) fn utf8_str(v: &[u8]) -> (r: Option<&str>)
    ensures
        r is Some <==> valid_utf8(v@),
        r matches Some(s) ==> s@ == decode_utf8(v@),
{
    std::str::from_utf8(v).ok()
}

/// `char::from_u32`: the character with a number, where the number is that of a
/// Unicode scalar value.
#[verifier::external_body]
pub(crate) fn char_of(n: u32) -> (r: Option<char>)
    ensures
        r is Some <==> n < 0xd800 || 0xe000 <= n <= 0x10ffff,
        r matches Some(c) ==> c == n as char,
{
    char::from_u32(n)
}

/// What `String::from_utf8_lossy` makes of a byte string.
pub uninterp spec fn utf8_lossy_text(v: Seq<u8>) -> Seq<char>;

/// `String::from_utf8_lossy`: well formed input is decoded as it stands; what it
/// puts in place of malformed parts is left to the name `utf8_lossy_text`.
#[verifier::external_body]
pub(crate) fn utf8_lossy(v: &[u8]) -> (r: String)
    ensures
        r@ == utf8_lossy_text(v@),
        valid_utf8(v@) ==> r@ == decode_utf8(v@),
{
    String::from_utf8_lossy(v).into_owned()
}

/// How `Debug` writes a string.
pub uninterp spec fn debug_text(s: Seq<char>) -> Seq<char>;

/// `<str as Debug>::fmt`: the string in quotes with its special characters
/// escaped; the text is named by `debug_text`.
#[verifier::external_body]
pub(crate) fn debug_str(s: &str) -> (r: String)
    ensures
        r@ == debug_text(s@),
{
    format!("{s:?}")
}

/// Concatenation is associative; longer texts are grouped from the left.
pub broadcast proof fn lemma_concat<T>(a: Seq<T>, b: Seq<T>, c: Seq<T>)
    ensures
        #[trigger] (a + (b + c)) == a + b + c,
{
    assert(a + (b + c) =~= a + b + c);
}

/// Nothing behind a text leaves it as it is.
pub broadcast proof fn lemma_concat_nothing<T>(a: Seq<T>)
    ensures
        #[trigger] (a + Seq::<T>::empty()) == a,
{
    assert(a + Seq::<T>::empty() =~= a);
}

/// To push an item is to append a list of one.
pub broadcast proof fn lemma_push<T>(a: Seq<T>, x: T)
    ensures
        #[trigger] a.push(x) == a + seq![x],
{
    assert(a.push(x) =~= a + seq![x]);
}

/// Growing a text piece by piece.
pub broadcast group group_concat {
    lemma_concat,
    lemma_concat_nothing,
    lemma_push,
}

/// The characters of `s`.
pub fn chars_of(s: &str) -> (v: Vec<char>)
    ensures
        v@ == s@,
{
    let mut v: Vec<char> = Vec::new();
    for c in it: s.chars()
        invariant
            it.seq() == s@,
            v@ == it.seq().take(it.index() as int),
    {
        v.push(c);
        assert(v@ =~= it.seq().take(it.index() as int + 1));
    }
    assert(v@ =~= s@);
    v
}

/// The string of the characters `v[from..to]`.
pub fn string_of(v: &[char], from: usize, to: usize) -> (s: String)
    requires
        from <= to <= v@.len(),
    ensures
        s@ == v@.subrange(from as int, to as int),
{
    let mut s = String::new();
    let mut i: usize = from;
    while i < to
        invariant
            from <= i <= to <= v@.len(),
            s@ == v@.subrange(from as int, i as int),
        decreases to - i,
    {
        s.push(v[i]);
        i += 1;
        assert(s@ =~= v@.subrange(from as int, i as int));
    }
    s
}

/// Each byte as the character with its number.
pub open spec fn latin(b: Seq<u8>) -> Seq<char> {
    b.map_values(|c: u8| c as char)
}

/// The string of some bytes that are characters of ASCII.
pub fn ascii_string(b: &[u8]) -> (s: String)
    requires
        forall|i: int| 0 <= i < b@.len() ==> #[trigger] b@[i] < 0x80,
    ensures
        s@ == latin(b@),
        encode_utf8(s@) == b@,
{
    let mut s = String::new();
    let mut i: usize = 0;
    while i < b.len()
        invariant
            i <= b@.len(),
            s@ == latin(b@).take(i as int),
        decreases b@.len() - i,
    {
        s.push(b[i] as char);
        i += 1;
        assert(s@ =~= latin(b@).take(i as int));
    }
    proof {
        assert(s@ =~= latin(b@));
        vstd::utf8::is_ascii_chars_encode_utf8(s@);
        assert(encode_utf8(s@) =~= b@);
    }
    s
}

/// Whether `s` has no characters.
pub fn is_empty(s: &str) -> (r: bool)
    ensures
        r == (s@.len() == 0),
{
    proof {
        if s@.len() > 0 {
            vstd::utf8::encode_utf8_first_scalar(s@);
        } else {
            assert(encode_utf8(s@).len() == 0);
        }
    }
    s.as_bytes().len() == 0
}

/// An owned copy of `s`.
pub fn own(s: &str) -> (r: String)
    ensures
        r@ == s@,
{
    s.to_owned()
}

/// `a` followed by `b`.
pub fn join2(a: &str, b: &str) -> (r: String)
    ensures
        r@ == a@ + b@,
{
    let mut r = own(a);
    r.push_str(b);
    r
}

/// `a`, `b` and `c` one after the other.
pub fn join3(a: &str, b: &str, c: &str) -> (r: String)
    ensures
        r@ == a@ + b@ + c@,
{
    let mut r = join2(a, b);
    r.push_str(c);
    r
}

/// The decimal digit of `d`.
pub open spec fn digit_char(d: int) -> char {
    if d == 0 { '0' } else if d == 1 { '1' } else if d == 2 { '2' } else if d == 3 { '3' }
    else if d == 4 { '4' } else if d == 5 { '5' } else if d == 6 { '6' } else if d == 7 { '7' }
    else if d == 8 { '8' } else if d == 9 { '9' } else if d == 10 { 'a' } else if d == 11 { 'b' }
    else if d == 12 { 'c' } else if d == 13 { 'd' } else if d == 14 { 'e' } else { 'f' }
}

fn digit_of(d: u64) -> (c: char)
    requires
        d < 16,
    ensures
        c == digit_char(d as int),
{
    if d == 0 { '0' } else if d == 1 { '1' } else if d == 2 { '2' } else if d == 3 { '3' }
    else if d == 4 { '4' } else if d == 5 { '5' } else if d == 6 { '6' } else if d == 7 { '7' }
    else if d == 8 { '8' } else if d == 9 { '9' } else if d == 10 { 'a' } else if d == 11 { 'b' }
    else if d == 12 { 'c' } else if d == 13 { 'd' } else if d == 14 { 'e' } else { 'f' }
}

/// `n` written in base `radix`, without leading zeros.
pub open spec fn digits(n: nat, radix: nat) -> Seq<char>
    decreases n,
    when radix > 1
{
    if n < radix {
        seq![digit_char(n as int)]
    } else {
        proof {
            assert(n / radix < n) by (nonlinear_arith) requires n >= radix, radix > 1;
        }
        digits(n / radix, radix).push(digit_char((n % radix) as int))
    }
}

/// `n` in decimal.
pub open spec fn decimal(n: nat) -> Seq<char> {
    digits(n, 10)
}

/// A signed number in decimal.
pub open spec fn decimal_int(n: int) -> Seq<char> {
    if n < 0 { seq!['-'] + decimal((-n) as nat) } else { decimal(n as nat) }
}

/// `s` with zeros in front, `width` characters at least.
pub open spec fn zero_padded(s: Seq<char>, width: nat) -> Seq<char>
{
    if s.len() >= width { s } else { Seq::new((width - s.len()) as nat, |i: int| '0') + s }
}

fn write_digits(n: u64, radix: u64) -> (s: String)
    requires
        2 <= radix <= 16,
    ensures
        s@ == digits(n as nat, radix as nat),
    decreases n,
{
    if n < radix {
        let mut s = String::new();
        s.push(digit_of(n));
        assert(s@ =~= digits(n as nat, radix as nat));
        s
    } else {
        assert(n / radix < n) by (nonlinear_arith) requires n >= radix, radix >= 2;
        let mut s = write_digits(n / radix, radix);
        assert(n % radix < radix) by (nonlinear_arith) requires radix >= 2;
        s.push(digit_of(n % radix));
        s
    }
}

/// Decimal text of `n`.
pub fn dec_u64(n: u64) -> (s: String)
    ensures
        s@ == decimal(n as nat),
{
    write_digits(n, 10)
}

/// Decimal text of `n`.
pub fn dec_usize(n: usize) -> (s: String)
    ensures
        s@ == decimal(n as nat),
{
    write_digits(n as u64, 10)
}

/// Decimal text of `n`.
pub fn dec_i64(n: i64) -> (s: String)
    ensures
        s@ == decimal_int(n as int),
{
    if n < 0 {
        let mut s = String::new();
        s.push('-');
        let m: u64 = if n == i64::MIN { 0x8000_0000_0000_0000u64 } else { (-n) as u64 };
        let d = dec_u64(m);
        s.push_str(d.as_str());
        assert(s@ =~= decimal_int(n as int));
        s
    } else {
        dec_u64(n as u64)
    }
}

/// Lower case hexadecimal text of `n`.
pub fn hex_u64(n: u64) -> (s: String)
    ensures
        s@ == digits(n as nat, 16),
{
    write_digits(n, 16)
}

/// Lower case hexadecimal text of `n`, padded with zeros to `width` characters.
pub fn hex_padded(n: u64, width: usize) -> (s: String)
    ensures
        s@ == zero_padded(digits(n as nat, 16), width as nat),
{
    let d = hex_u64(n);
    let chars = chars_of(d.as_str());
    let mut s = String::new();
    let len: usize = chars.len();
    let mut k: usize = len;
    while k < width
        invariant
            len == chars@.len(),
            k >= len,
            k <= width || k == len,
            s@ == Seq::new((k - len) as nat, |i: int| '0'),
        decreases width - k,
    {
        s.push('0');
        k += 1;
        assert(s@ =~= Seq::new((k - len) as nat, |i: int| '0'));
    }
    s.push_str(d.as_str());
    assert(s@ =~= zero_padded(digits(n as nat, 16), width as nat));
    s
}

/// Two equal byte strings.
pub fn bytes_eq(a: &[u8], b: &[u8]) -> (r: bool)
    ensures
        r == (a@ == b@),
{
    if a.len() != b.len() {
        return false;
    }
    let mut i: usize = 0;
    while i < a.len()
        invariant
            a@.len() == b@.len(),
            i <= a@.len(),
            forall|j: int| 0 <= j < i ==> a@[j] == b@[j],
        decreases a@.len() - i,
    {
        if a[i] != b[i] {
            return false;
        }
        i += 1;
    }
    assert(a@ =~= b@);
    true
}

/// `v[from..to]` as a vector of its own.
pub fn bytes_of(v: &[u8], from: usize, to: usize) -> (r: Vec<u8>)
    requires
        from <= to <= v@.len(),
    ensures
        r@ == v@.subrange(from as int, to as int),
{
    let mut r: Vec<u8> = Vec::new();
    let mut i: usize = from;
    while i < to
        invariant
            from <= i <= to <= v@.len(),
            r@ == v@.subrange(from as int, i as int),
        decreases to - i,
    {
        r.push(v[i]);
        i += 1;
        assert(r@ =~= v@.subrange(from as int, i as int));
    }
    r
}

/// Appends `b` to `out`.
pub fn push_bytes(out: &mut Vec<u8>, b: &[u8])
    ensures
        final(out)@ == old(out)@ + b@,
{
    let ghost start = out@;
    let mut i: usize = 0;
    assert(out@ =~= start + b@.take(0));
    while i < b.len()
        invariant
            i <= b@.len(),
            out@ == start + b@.take(i as int),
        decreases b@.len() - i,
    {
        out.push(b[i]);
        i += 1;
        assert(out@ =~= start + b@.take(i as int));
    }
    assert(out@ =~= start + b@);
}

/// Whether `needle` stands in `hay` at `at`.
pub open spec fn occurs_at<T>(hay: Seq<T>, needle: Seq<T>, at: int) -> bool {
    0 <= at && at + needle.len() <= hay.len() && hay.subrange(at, at + needle.len()) == needle
}

/// The bytes of `needle` stand in `hay` at `at`.
pub fn bytes_at(hay: &[u8], needle: &[u8], at: usize) -> (r: bool)
    ensures
        r == occurs_at(hay@, needle@, at as int),
{
    if needle.len() > hay.len() || at > hay.len() - needle.len() {
        return false;
    }
    let hay_len: usize = hay.len();
    let mut i: usize = 0;
    while i < needle.len()
        invariant
            hay_len == hay@.len(),
            at + needle@.len() <= hay@.len(),
            i <= needle@.len(),
            forall|j: int| 0 <= j < i ==> hay@[at + j] == needle@[j],
        decreases needle@.len() - i,
    {
        if hay[at + i] != needle[i] {
            assert(hay@.subrange(at as int, at + needle@.len())[i as int] == hay@[at + i]);
            return false;
        }
        i += 1;
    }
    assert(hay@.subrange(at as int, at + needle@.len()) =~= needle@);
    true
}

/// An ASCII letter in lower case; anything else as it stands.
pub open spec fn ascii_lower(b: u8) -> u8 {
    if 0x41 <= b <= 0x5a { (b + 0x20) as u8 } else { b }
}

/// Equal up to the case of ASCII letters.
pub open spec fn eq_ignore_case(a: Seq<u8>, b: Seq<u8>) -> bool {
    &&& a.len() == b.len()
    &&& forall|i: int| 0 <= i < a.len() ==> ascii_lower(#[trigger] a[i]) == ascii_lower(b[i])
}

fn lower(b: u8) -> (r: u8)
    ensures
        r == ascii_lower(b),
{
    if 0x41 <= b && b <= 0x5a { b + 0x20 } else { b }
}

/// Whether `a` and `b` are equal up to the case of ASCII letters.
pub fn bytes_eq_ci(a: &[u8], b: &[u8]) -> (r: bool)
    ensures
        r == eq_ignore_case(a@, b@),
{
    if a.len() != b.len() {
        return false;
    }
    let mut i: usize = 0;
    while i < a.len()
        invariant
            a@.len() == b@.len(),
            i <= a@.len(),
            forall|j: int| 0 <= j < i ==> ascii_lower(#[trigger] a@[j]) == ascii_lower(b@[j]),
        decreases a@.len() - i,
    {
        if lower(a[i]) != lower(b[i]) {
            return false;
        }
        i += 1;
    }
    true
}

/// The first place at or after `i` where `c` stands in `s`.
pub open spec fn next_item<T>(s: Seq<T>, c: T, i: int) -> Option<int>
    decreases s.len() - i,
{
    if i < 0 || i >= s.len() {
        None
    } else if s[i] == c {
        Some(i)
    } else {
        next_item(s, c, i + 1)
    }
}

/// `next_item` is the first such place, and there is none where it says so.
pub proof fn lemma_next_item<T>(s: Seq<T>, c: T, i: int)
    requires
        0 <= i,
    ensures
        next_item(s, c, i) matches Some(p) ==> i <= p < s.len() && s[p] == c && forall|k: int|
            i <= k < p ==> #[trigger] s[k] != c,
        next_item(s, c, i) is None ==> forall|k: int| i <= k < s.len() ==> #[trigger] s[k] != c,
    decreases s.len() - i,
{
    if i < s.len() && s[i] != c {
        lemma_next_item(s, c, i + 1);
    }
}

/// The first place at or after `from` where the byte `c` stands in `b`.
pub fn find_byte(b: &[u8], c: u8, from: usize) -> (r: Option<usize>)
    ensures
        match next_item(b@, c, from as int) {
            Some(p) => r matches Some(k) && k == p && from <= p < b@.len() && b@[p] == c,
            None => r is None,
        },
{
    let mut i: usize = from;
    while i < b.len()
        invariant
            from <= i,
            next_item(b@, c, from as int) == next_item(b@, c, i as int),
        decreases b@.len() - i,
    {
        if b[i] == c {
            return Some(i);
        }
        i += 1;
    }
    None
}

/// The first place at or after `from` where the character `c` stands in `s`.
pub fn find_char(s: &Vec<char>, c: char, from: usize) -> (r: Option<usize>)
    ensures
        match next_item(s@, c, from as int) {
            Some(p) => r matches Some(k) && k == p && from <= p < s@.len() && s@[p] == c,
            None => r is None,
        },
{
    let mut i: usize = from;
    while i < s.len()
        invariant
            from <= i,
            next_item(s@, c, from as int) == next_item(s@, c, i as int),
        decreases s@.len() - i,
    {
        if s[i] == c {
            return Some(i);
        }
        i += 1;
    }
    None
}

/// The first place at or after `from` where `needle` stands in `b`.
pub open spec fn next_at<T>(b: Seq<T>, needle: Seq<T>, from: int) -> Option<int>
    decreases b.len() + 1 - from,
{
    if from < 0 || from > b.len() {
        None
    } else if occurs_at(b, needle, from) {
        Some(from)
    } else {
        next_at(b, needle, from + 1)
    }
}

/// The first place at or after `from` where `needle` stands in `b`.
pub fn find_next(b: &[u8], needle: &[u8], from: usize) -> (r: Option<usize>)
    ensures
        match next_at(b@, needle@, from as int) {
            Some(p) => r matches Some(k) && k == p && from <= p <= b@.len() && occurs_at(
                b@,
                needle@,
                p,
            ),
            None => r is None,
        },
{
    let n: usize = b.len();
    let mut p: usize = from;
    while p <= n
        invariant
            n == b@.len(),
            from <= p,
            next_at(b@, needle@, from as int) == next_at(b@, needle@, p as int),
        decreases b@.len() + 1 - p,
    {
        if bytes_at(b, needle, p) {
            return Some(p);
        }
        if p == n {
            assert(next_at(b@, needle@, p + 1) is None);
            return None;
        }
        p += 1;
    }
    None
}

/// The first place at or after `from` where `needle` stands in `v`.
pub fn find_text(v: &Vec<char>, needle: &str, from: usize) -> (r: Option<usize>)
    ensures
        match next_at(v@, needle@, from as int) {
            Some(p) => r matches Some(k) && k == p && from <= p <= v@.len() && occurs_at(
                v@,
                needle@,
                p,
            ),
            None => r is None,
        },
{
    let t = chars_of(needle);
    let n: usize = v.len();
    let mut p: usize = from;
    while p <= n
        invariant
            n == v@.len(),
            t@ == needle@,
            from <= p,
            next_at(v@, needle@, from as int) == next_at(v@, needle@, p as int),
        decreases v@.len() + 1 - p,
    {
        if chars_at(v, &t, p) {
            return Some(p);
        }
        if p == n {
            assert(next_at(v@, needle@, p + 1) is None);
            return None;
        }
        p += 1;
    }
    None
}

fn chars_at(v: &Vec<char>, t: &Vec<char>, at: usize) -> (r: bool)
    ensures
        r == occurs_at(v@, t@, at as int),
{
    if t.len() > v.len() || at > v.len() - t.len() {
        return false;
    }
    let n: usize = v.len();
    let mut i: usize = 0;
    while i < t.len()
        invariant
            n == v@.len(),
            at + t@.len() <= n,
            i <= t@.len(),
            forall|j: int| 0 <= j < i ==> v@[at + j] == t@[j],
        decreases t@.len() - i,
    {
        if v[at + i] != t[i] {
            assert(v@.subrange(at as int, at + t@.len())[i as int] == v@[at + i]);
            return false;
        }
        i += 1;
    }
    assert(v@.subrange(at as int, at + t@.len()) =~= t@);
    true
}

/// The UTF-16 code units of one character.
pub open spec fn utf16_char(c: char) -> Seq<u16> {
    let u = c as u32;
    if u < 0x10000 {
        seq![u as u16]
    } else {
        seq![(0xd800 + (u - 0x10000) / 0x400) as u16, (0xdc00 + (u - 0x10000) % 0x400) as u16]
    }
}

/// The UTF-16 code units of a text.
pub open spec fn utf16(s: Seq<char>) -> Seq<u16>
    decreases s.len(),
{
    if s.len() == 0 { seq![] } else { utf16(s.drop_last()) + utf16_char(s.last()) }
}

/// The UTF-16 code units of `s`.
pub fn utf16_of(s: &str) -> (v: Vec<u16>)
    ensures
        v@ == utf16(s@),
{
    let chars = chars_of(s);
    let mut v: Vec<u16> = Vec::new();
    let mut i: usize = 0;
    while i < chars.len()
        invariant
            i <= chars@.len(),
            v@ == utf16(chars@.take(i as int)),
        decreases chars@.len() - i,
    {
        let c: char = chars[i];
        let u: u32 = c as u32;
        if u < 0x10000 {
            v.push(u as u16);
        } else {
            let w: u32 = u - 0x10000;
            v.push((0xd800 + w / 0x400) as u16);
            v.push((0xdc00 + w % 0x400) as u16);
        }
        i += 1;
        assert(chars@.take(i as int).drop_last() =~= chars@.take(i - 1));
        assert(v@ =~= utf16(chars@.take(i as int)));
    }
    assert(chars@.take(i as int) =~= s@);
    v
}

} // verus!
