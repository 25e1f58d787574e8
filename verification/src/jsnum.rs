//! JavaScript numbers, read off the bits of their binary64 representation.
use vstd::arithmetic::div_mod::{lemma_basic_div, lemma_mod_multiples_basic, lemma_mul_mod_noop_left, lemma_small_mod};
use vstd::arithmetic::power2::{lemma2_to64, lemma2_to64_rest, lemma_pow2_adds, lemma_pow2_pos, lemma_pow2_strictly_increases, lemma_pow2_unfold, pow2};
use vstd::prelude::*;

use crate::floats::{ArithOp, FloatOps, FloatsV};
use crate::text::{chars_of, dec_i64, decimal_int, digit_char, own, push_bytes};

verus! {

/// The weight of the sign bit.
pub const SIGN: u64 = 0x8000_0000_0000_0000;

/// The bits of positive infinity.
pub const INFINITY: u64 = 0x7ff0_0000_0000_0000;

/// The bits of the quiet NaN without payload.
pub const NAN: u64 = 0x7ff8_0000_0000_0000;

/// The bits of one.
pub const ONE: u64 = 0x3ff0_0000_0000_0000;

/// Two to the power of 52: the weight of the lowest exponent bit.
pub const UNIT: u64 = 0x10_0000_0000_0000;

/// The bits of ten to the power of 21.
pub const E21: u64 = 0x444b_1ae4_d6e2_ef50;

/// Two to the power of 32.
pub const TWO32: u64 = 0x1_0000_0000;

// ---------------------------------------------------------------- the value

/// The sign bit is set.
pub open spec fn negative(b: u64) -> bool {
    b >= SIGN
}

/// The bits without the sign.
pub open spec fn magnitude(b: u64) -> u64 {
    if b >= SIGN { (b - SIGN) as u64 } else { b }
}

/// Not a number.
pub open spec fn is_nan(b: u64) -> bool {
    magnitude(b) > INFINITY
}

/// One of the two infinities.
pub open spec fn is_infinite(b: u64) -> bool {
    magnitude(b) == INFINITY
}

/// Neither an infinity nor a NaN.
pub open spec fn is_finite(b: u64) -> bool {
    magnitude(b) < INFINITY
}

/// Positive or negative zero.
pub open spec fn is_zero(b: u64) -> bool {
    magnitude(b) == 0
}

/// A finite number is `mantissa * 2^exponent`, up to its sign.
pub open spec fn mantissa(b: u64) -> nat {
    let m = magnitude(b) as nat;
    if m / (UNIT as nat) == 0 { m % (UNIT as nat) } else { m % (UNIT as nat) + UNIT as nat }
}

/// The power of two by which the significand is scaled.
pub open spec fn exponent(b: u64) -> int {
    let e = magnitude(b) as int / (UNIT as int);
    if e == 0 { -1074 } else { e - 1075 }
}

/// The whole part of a finite number, without its sign.
pub open spec fn whole(b: u64) -> nat {
    if exponent(b) >= 0 {
        mantissa(b) * pow2(exponent(b) as nat)
    } else {
        mantissa(b) / pow2((-exponent(b)) as nat)
    }
}

/// A finite number rounded towards zero.
pub open spec fn trunc(b: u64) -> int {
    if negative(b) { -(whole(b) as int) } else { whole(b) as int }
}

/// A finite number without a fraction.
pub open spec fn is_integral(b: u64) -> bool {
    exponent(b) >= 0 || mantissa(b) % pow2((-exponent(b)) as nat) == 0
}

/// Where a number stands in the order of the real line; NaN excepted.
pub open spec fn rank(b: u64) -> int {
    if negative(b) { -(magnitude(b) as int) } else { magnitude(b) as int }
}

/// `a < b` as numbers.
pub open spec fn num_lt(a: u64, b: u64) -> bool {
    !is_nan(a) && !is_nan(b) && rank(a) < rank(b)
}

/// `a <= b` as numbers.
pub open spec fn num_le(a: u64, b: u64) -> bool {
    !is_nan(a) && !is_nan(b) && rank(a) <= rank(b)
}

/// `a == b` as numbers: a NaN equals nothing, the two zeros are equal.
pub open spec fn num_eq(a: u64, b: u64) -> bool {
    !is_nan(a) && !is_nan(b) && rank(a) == rank(b)
}

/// The number with the other sign.
pub open spec fn negated(b: u64) -> u64 {
    if negative(b) { (b - SIGN) as u64 } else { (b + SIGN) as u64 }
}

/// The 32 low bits of the whole number `n` in two's complement.
pub open spec fn low32(n: int) -> u32 {
    (n % 0x1_0000_0000) as u32
}

/// The value of 32 bits as a signed number.
pub open spec fn signed32(u: u32) -> i32 {
    if u >= 0x8000_0000 { (u - 0x1_0000_0000) as i32 } else { u as i32 }
}

/// JavaScript's `ToUint32`.
pub open spec fn uint32_of(b: u64) -> u32 {
    if is_finite(b) { low32(trunc(b)) } else { 0 }
}

/// JavaScript's `ToInt32`.
pub open spec fn int32_of(b: u64) -> i32 {
    signed32(uint32_of(b))
}

/// The number as a 64 bit integer: rounded towards zero, cut off at the ends of
/// the range, zero for a NaN.
pub open spec fn int64_of(b: u64) -> i64 {
    if is_nan(b) {
        0
    } else if is_infinite(b) || whole(b) >= 0x8000_0000_0000_0000 {
        if negative(b) { i64::MIN } else { i64::MAX }
    } else {
        trunc(b) as i64
    }
}

/// The place of the highest bit of `n`.
pub open spec fn top_bit(n: nat) -> nat
    decreases n,
{
    if n < 2 { 0 } else { 1 + top_bit(n / 2) }
}

/// `n` shifted right by `s` bits, rounded to nearest, ties to even.
pub open spec fn round_shift(n: nat, s: nat) -> nat {
    let q = n / pow2(s);
    let r = n % pow2(s);
    if 2 * r > pow2(s) || (2 * r == pow2(s) && q % 2 == 1) { q + 1 } else { q }
}

/// The bits of the number nearest to `n`.
pub open spec fn bits_of_nat(n: nat) -> int {
    let k = top_bit(n);
    if n == 0 {
        0
    } else if k <= 52 {
        (1022 + k) * UNIT + n * pow2((52 - k) as nat)
    } else {
        (1022 + k) * UNIT + round_shift(n, (k - 52) as nat)
    }
}

/// The bits of the number nearest to `n`.
pub open spec fn bits_of_int(n: int) -> int {
    if n < 0 { SIGN + bits_of_nat((-n) as nat) } else { bits_of_nat(n as nat) }
}

// ------------------------------------------------------------ reading numbers

fn magnitude_of(b: u64) -> (r: u64)
    ensures
        r == magnitude(b),
        r < SIGN,
{
    if b >= SIGN { b - SIGN } else { b }
}

/// Whether `b` is a NaN.
pub fn nan(b: u64) -> (r: bool)
    ensures
        r == is_nan(b),
{
    magnitude_of(b) > INFINITY
}

/// Whether `b` is a zero.
pub fn zero(b: u64) -> (r: bool)
    ensures
        r == is_zero(b),
{
    magnitude_of(b) == 0
}

/// Whether `b` is neither a NaN nor infinite.
pub fn finite(b: u64) -> (r: bool)
    ensures
        r == is_finite(b),
{
    magnitude_of(b) < INFINITY
}

fn below(a: u64, b: u64) -> (r: bool)
    ensures
        r == (rank(a) < rank(b)),
{
    if a >= SIGN {
        if b >= SIGN { a > b } else { a > SIGN || b > 0 }
    } else if b >= SIGN {
        false
    } else {
        a < b
    }
}

/// Whether `a < b`.
pub fn less(a: u64, b: u64) -> (r: bool)
    ensures
        r == num_lt(a, b),
{
    !nan(a) && !nan(b) && below(a, b)
}

/// Whether `a <= b`.
pub fn less_eq(a: u64, b: u64) -> (r: bool)
    ensures
        r == num_le(a, b),
{
    !nan(a) && !nan(b) && !below(b, a)
}

/// Whether `a == b`.
pub fn equal(a: u64, b: u64) -> (r: bool)
    ensures
        r == num_eq(a, b),
{
    !nan(a) && !nan(b) && !below(a, b) && !below(b, a)
}

/// The number with the other sign.
pub fn negate(b: u64) -> (r: u64)
    ensures
        r == negated(b),
{
    if b >= SIGN { b - SIGN } else { b + SIGN }
}

/// The number without its sign.
pub fn absolute(b: u64) -> (r: u64)
    ensures
        r == magnitude(b),
{
    magnitude_of(b)
}

fn two_to(e: u64) -> (p: u64)
    requires
        e < 64,
    ensures
        p == pow2(e as nat),
        p > 0,
{
    let mut p: u64 = 1;
    let mut i: u64 = 0;
    proof {
        lemma2_to64();
    }
    while i < e
        invariant
            i <= e < 64,
            p == pow2(i as nat),
        decreases e - i,
    {
        proof {
            lemma_pow2_unfold((i + 1) as nat);
            lemma2_to64();
            lemma2_to64_rest();
            if i + 1 < 63 {
                lemma_pow2_strictly_increases((i + 1) as nat, 63);
            }
        }
        p = p * 2;
        i += 1;
    }
    proof {
        lemma_pow2_pos(e as nat);
    }
    p
}

/// The parts of a finite number: mantissa and biased exponent.
fn parts(b: u64) -> (r: (u64, u64))
    requires
        is_finite(b),
    ensures
        r.0 == mantissa(b),
        r.0 < 2 * UNIT,
        r.1 == magnitude(b) / UNIT,
        r.1 < 2047,
        r.1 == 0 ==> exponent(b) == -1074 && r.0 < UNIT,
        r.1 > 0 ==> exponent(b) == r.1 - 1075 && r.0 >= UNIT,
        r.1 == 0 && r.0 == 0 ==> magnitude(b) == 0,
{
    let m: u64 = magnitude_of(b);
    let e: u64 = m / UNIT;
    let f: u64 = m % UNIT;
    if e == 0 { (f, e) } else { (f + UNIT, e) }
}

proof fn lemma_small_whole(m: nat, k: nat)
    requires
        m < 2 * UNIT,
        k >= 53,
    ensures
        m / pow2(k) == 0,
        m % pow2(k) == m,
        m < pow2(k),
{
    lemma2_to64_rest();
    if k > 53 {
        lemma_pow2_strictly_increases(53, k);
    }
    lemma_basic_div(m as int, pow2(k) as int);
    lemma_small_mod(m, pow2(k));
}

proof fn lemma_shifted_low(m: nat, e: nat)
    ensures
        e < 32 ==> ((m % 0x1_0000_0000) * pow2(e)) % 0x1_0000_0000 == (m * pow2(e)) % 0x1_0000_0000,
        e >= 32 ==> (m * pow2(e)) % 0x1_0000_0000 == 0,
{
    lemma2_to64();
    if e < 32 {
        lemma_mul_mod_noop_left(m as int, pow2(e) as int, 0x1_0000_0000);
    } else {
        lemma_pow2_adds((e - 32) as nat, 32);
        assert(m * pow2(e) == (m * pow2((e - 32) as nat)) * 0x1_0000_0000) by (nonlinear_arith)
            requires
                pow2(e) == pow2((e - 32) as nat) * 0x1_0000_0000,
        ;
        lemma_mod_multiples_basic((m * pow2((e - 32) as nat)) as int, 0x1_0000_0000);
    }
}

/// `ToUint32`: the whole part modulo two to the power of 32.
pub fn to_uint32(b: u64) -> (r: u32)
    ensures
        r == uint32_of(b),
{
    if !finite(b) {
        return 0;
    }
    let (m, e) = parts(b);
    let low: u64 = if e >= 1075 {
        let s: u64 = e - 1075;
        proof {
            lemma_shifted_low(m as nat, s as nat);
        }
        if s >= 32 {
            0
        } else {
            let p: u64 = two_to(s);
            proof {
                lemma2_to64();
                if s < 31 {
                    lemma_pow2_strictly_increases(s as nat, 31);
                }
            }
            let q: u64 = m % TWO32;
            assert(q * p <= 0xffff_ffff * 0x8000_0000) by (nonlinear_arith)
                requires
                    q <= 0xffff_ffff,
                    p <= 0x8000_0000,
            ;
            (q * p) % TWO32
        }
    } else if e < 1023 {
        proof {
            lemma_small_whole(m as nat, (-exponent(b)) as nat);
        }
        0
    } else {
        let p: u64 = two_to(1075 - e);
        (m / p) % TWO32
    };
    assert(low == whole(b) % 0x1_0000_0000);
    if b >= SIGN && low > 0 { (TWO32 - low) as u32 } else { low as u32 }
}

/// `ToInt32`: the same bits as `ToUint32`, read as a signed number.
pub fn to_int32(b: u64) -> (r: i32)
    ensures
        r == int32_of(b),
{
    as_signed(to_uint32(b))
}

/// 32 bits read as a signed number.
pub fn as_signed(u: u32) -> (r: i32)
    ensures
        r == signed32(u),
{
    if u >= 0x8000_0000 { (u as i64 - 0x1_0000_0000) as i32 } else { u as i32 }
}

/// The number as a 64 bit integer.
pub fn to_i64(b: u64) -> (r: i64)
    ensures
        r == int64_of(b),
{
    if nan(b) {
        return 0;
    }
    if !finite(b) {
        return if b >= SIGN { i64::MIN } else { i64::MAX };
    }
    let (m, e) = parts(b);
    if e >= 1086 {
        proof {
            lemma2_to64();
            lemma2_to64_rest();
            if e > 1086 {
                lemma_pow2_strictly_increases(11, (e - 1075) as nat);
            }
            assert(m * pow2((e - 1075) as nat) >= 0x10_0000_0000_0000 * 2048) by (nonlinear_arith)
                requires
                    m >= 0x10_0000_0000_0000,
                    pow2((e - 1075) as nat) >= 2048,
            ;
        }
        return if b >= SIGN { i64::MIN } else { i64::MAX };
    }
    let w: u64 = if e >= 1075 {
        let p: u64 = two_to(e - 1075);
        proof {
            lemma2_to64();
            if e < 1085 {
                lemma_pow2_strictly_increases((e - 1075) as nat, 10);
            }
            assert(m * p < 0x20_0000_0000_0000 * 1024) by (nonlinear_arith)
                requires
                    m < 0x20_0000_0000_0000,
                    0 < p <= 1024,
            ;
        }
        m * p
    } else if e < 1023 {
        proof {
            lemma_small_whole(m as nat, (-exponent(b)) as nat);
        }
        0
    } else {
        let p: u64 = two_to(1075 - e);
        assert(m / p <= m) by (nonlinear_arith) requires p > 0;
        m / p
    };
    assert(w == whole(b));
    if b >= SIGN { -(w as i64) } else { w as i64 }
}

/// Whether a finite number has no fraction.
pub fn integral(b: u64) -> (r: bool)
    requires
        is_finite(b),
    ensures
        r == is_integral(b),
{
    let (m, e) = parts(b);
    if e >= 1075 {
        true
    } else if e < 1023 {
        proof {
            lemma_small_whole(m as nat, (-exponent(b)) as nat);
        }
        m == 0
    } else {
        m % two_to(1075 - e) == 0
    }
}

proof fn lemma_top_bit(n: nat)
    requires
        n > 0,
    ensures
        pow2(top_bit(n)) <= n < 2 * pow2(top_bit(n)),
    decreases n,
{
    lemma2_to64();
    if n >= 2 {
        lemma_top_bit(n / 2);
        lemma_pow2_unfold(top_bit(n));
    }
}

fn top_bit_of(n: u64) -> (k: u64)
    requires
        n > 0,
    ensures
        k == top_bit(n as nat),
        k < 64,
{
    proof {
        lemma_top_bit_bound(n);
    }
    let mut m: u64 = n;
    let mut k: u64 = 0;
    while m >= 2
        invariant
            m > 0,
            k + top_bit(m as nat) == top_bit(n as nat),
            n > 0,
            k <= top_bit(n as nat),
            top_bit(n as nat) < 64,
        decreases m,
    {
        m = m / 2;
        k += 1;
    }
    k
}

proof fn lemma_top_bit_bound(n: u64)
    requires
        n > 0,
    ensures
        top_bit(n as nat) < 64,
{
    lemma_top_bit(n as nat);
    lemma2_to64();
    if top_bit(n as nat) >= 64 {
        if top_bit(n as nat) > 64 {
            lemma_pow2_strictly_increases(64, top_bit(n as nat));
        }
    }
}

/// The number nearest to `n`.
pub fn from_u64(n: u64) -> (b: u64)
    ensures
        b == bits_of_nat(n as nat),
        b < SIGN,
{
    if n == 0 {
        return 0;
    }
    proof {
        lemma_top_bit_bound(n);
        lemma_top_bit(n as nat);
    }
    let k: u64 = top_bit_of(n);
    if k <= 52 {
        let p: u64 = two_to(52 - k);
        proof {
            lemma_pow2_adds(k as nat, (52 - k) as nat);
            lemma2_to64_rest();
            assert(n * p < 2 * 0x10_0000_0000_0000) by (nonlinear_arith)
                requires
                    n < 2 * pow2(k as nat),
                    p == pow2((52 - k) as nat),
                    pow2(k as nat) * pow2((52 - k) as nat) == 0x10_0000_0000_0000,
                    p > 0,
            ;
        }
        (1022 + k) * UNIT + n * p
    } else {
        let p: u64 = two_to(k - 52);
        let q: u64 = n / p;
        let r: u64 = n % p;
        proof {
            lemma_pow2_adds(52, (k - 52) as nat);
            lemma2_to64();
            lemma2_to64_rest();
            lemma_pow2_strictly_increases((k - 52) as nat, 12);
            assert(q < 2 * 0x10_0000_0000_0000) by (nonlinear_arith)
                requires
                    q == n / p,
                    n < 2 * (0x10_0000_0000_0000 * p),
                    p > 0,
            ;
            assert(r < p) by (nonlinear_arith)
                requires
                    r == n % p,
                    p > 0,
            ;
        }
        let up: bool = 2 * r > p || (2 * r == p && q % 2 == 1);
        (1022 + k) * UNIT + if up { q + 1 } else { q }
    }
}

/// The number nearest to `n`.
pub fn from_i64(n: i64) -> (b: u64)
    ensures
        b == bits_of_int(n as int),
{
    if n < 0 {
        let m: u64 = if n == i64::MIN { SIGN } else { (-n) as u64 };
        SIGN + from_u64(m)
    } else {
        from_u64(n as u64)
    }
}

/// A whole number below two to the power of 53 is held exactly: its whole part is the
/// number, and it has no fraction.
pub proof fn lemma_exact(n: nat)
    requires
        n < 0x20_0000_0000_0000,
    ensures
        0 <= bits_of_nat(n) < INFINITY,
        whole(bits_of_nat(n) as u64) == n,
        is_integral(bits_of_nat(n) as u64),
{
    lemma2_to64();
    lemma2_to64_rest();
    let b = bits_of_nat(n) as u64;
    if n == 0 {
        lemma_pow2_pos(1074);
        lemma_small_whole(0, 1074);
    } else {
        let k = top_bit(n);
        lemma_top_bit(n);
        if k > 52 {
            if k > 53 {
                lemma_pow2_strictly_increases(53, k);
            }
            assert(false);
        }
        let s = (52 - k) as nat;
        let p = pow2(s);
        lemma_pow2_pos(s);
        lemma_pow2_adds(k, s);
        let m = n * p;
        assert(0x10_0000_0000_0000 <= m < 0x20_0000_0000_0000) by (nonlinear_arith)
            requires
                pow2(k) <= n < 2 * pow2(k),
                m == n * p,
                pow2(k) * p == 0x10_0000_0000_0000,
                p > 0,
        ;
        assert(bits_of_nat(n) == (1023 + k) * UNIT + (m - UNIT));
        assert(b as int / (UNIT as int) == 1023 + k);
        assert(b as int % (UNIT as int) == m - UNIT);
        assert(mantissa(b) == m);
        assert(exponent(b) == k - 52);
        assert(m / p == n && m % p == 0) by (nonlinear_arith)
            requires
                m == n * p,
                p > 0,
        ;
        if k == 52 {
            assert(p == 1);
            assert(m == n) by (nonlinear_arith)
                requires
                    m == n * p,
                    p == 1,
            ;
            assert(whole(b) == m * pow2(0));
            assert(m * pow2(0) == m) by (nonlinear_arith)
                requires
                    pow2(0) == 1,
            ;
        }
    }
}

/// Writing a whole number of 32 bits and reading it back gives the number.
pub proof fn lemma_int32_round_trip(n: i32)
    ensures
        int32_of(of_int32(n)) == n,
{
    let a = if n < 0 { (-n) as nat } else { n as nat };
    lemma_exact(a);
    let b = of_int32(n);
    assert(magnitude(b) == bits_of_nat(a));
    assert(whole(b) == whole(bits_of_nat(a) as u64));
    assert(trunc(b) == n);
}

proof fn lemma_bits_ascend(a: nat, b: nat)
    requires
        a < b < 0x20_0000_0000_0000,
    ensures
        bits_of_nat(a) < bits_of_nat(b),
{
    lemma2_to64();
    lemma2_to64_rest();
    let j = top_bit(b);
    lemma_top_bit(b);
    if j > 52 {
        if j > 53 {
            lemma_pow2_strictly_increases(53, j);
        }
        assert(false);
    }
    let q = pow2((52 - j) as nat);
    lemma_pow2_pos((52 - j) as nat);
    lemma_pow2_adds(j, (52 - j) as nat);
    assert(0x10_0000_0000_0000 <= b * q) by (nonlinear_arith)
        requires
            pow2(j) <= b,
            pow2(j) * q == 0x10_0000_0000_0000,
            q > 0,
    ;
    if a > 0 {
        let k = top_bit(a);
        lemma_top_bit(a);
        if k > j {
            lemma_pow2_strictly_increases(j, k);
            lemma_pow2_unfold((j + 1) as nat);
            if k > j + 1 {
                lemma_pow2_strictly_increases((j + 1) as nat, k);
            }
            assert(false);
        }
        let p = pow2((52 - k) as nat);
        lemma_pow2_pos((52 - k) as nat);
        lemma_pow2_adds(k, (52 - k) as nat);
        assert(a * p < 0x20_0000_0000_0000) by (nonlinear_arith)
            requires
                a < 2 * pow2(k),
                pow2(k) * p == 0x10_0000_0000_0000,
                p > 0,
        ;
        if k == j {
            assert(a * p < b * q) by (nonlinear_arith)
                requires
                    a < b,
                    p == q,
                    p > 0,
            ;
        }
    }
}

/// Where the bits of whole numbers end.
pub proof fn lemma_whole_bits(n: nat)
    requires
        n < 0x20_0000_0000_0000,
    ensures
        bits_of_nat(n) < 0x4340_0000_0000_0000,
{
    lemma2_to64();
    lemma2_to64_rest();
    if n > 0 {
        let k = top_bit(n);
        lemma_top_bit(n);
        if k > 52 {
            if k > 53 {
                lemma_pow2_strictly_increases(53, k);
            }
            assert(false);
        }
        let p = pow2((52 - k) as nat);
        lemma_pow2_pos((52 - k) as nat);
        lemma_pow2_adds(k, (52 - k) as nat);
        assert(n * p < 0x20_0000_0000_0000) by (nonlinear_arith)
            requires
                n < 2 * pow2(k),
                pow2(k) * p == 0x10_0000_0000_0000,
                p > 0,
        ;
    }
}

/// Whole numbers are ordered as integers are, and their signs are those of integers.
pub proof fn lemma_whole_order(a: int, b: int)
    requires
        -0x20_0000_0000_0000 < a < 0x20_0000_0000_0000,
        -0x20_0000_0000_0000 < b < 0x20_0000_0000_0000,
    ensures
        num_lt(bits_of_int(a) as u64, bits_of_int(b) as u64) <==> a < b,
        num_le(bits_of_int(a) as u64, bits_of_int(b) as u64) <==> a <= b,
        num_eq(bits_of_int(a) as u64, bits_of_int(b) as u64) <==> a == b,
        negated(bits_of_int(a) as u64) == bits_of_int(-a) as u64 || a == 0,
        trunc(bits_of_int(a) as u64) == a,
{
    let m = if a < 0 { (-a) as nat } else { a as nat };
    let n = if b < 0 { (-b) as nat } else { b as nat };
    lemma_exact(m);
    lemma_exact(n);
    if m < n {
        lemma_bits_ascend(m, n);
    }
    if n < m {
        lemma_bits_ascend(n, m);
    }
    if m > 0 {
        lemma_bits_ascend(0, m);
    }
    if n > 0 {
        lemma_bits_ascend(0, n);
    }
    let x = bits_of_int(a) as u64;
    assert(magnitude(x) == bits_of_nat(m));
    assert(magnitude(bits_of_int(b) as u64) == bits_of_nat(n));
    assert(whole(x) == whole(bits_of_nat(m) as u64));
}

/// The integer that an operation on bits reads is the number modulo two to the power of
/// 32, between minus and plus two to the power of 31.
pub proof fn lemma_low_bits(n: int)
    requires
        -0x20_0000_0000_0000 < n < 0x20_0000_0000_0000,
    ensures
        (int32_of(bits_of_int(n) as u64) - n) % 0x1_0000_0000 == 0,
        (uint32_of(bits_of_int(n) as u64) - n) % 0x1_0000_0000 == 0,
        -0x8000_0000 <= n < 0x8000_0000 ==> int32_of(bits_of_int(n) as u64) == n,
{
    lemma_whole_order(n, n);
    let x = bits_of_int(n) as u64;
    let m = if n < 0 { (-n) as nat } else { n as nat };
    lemma_exact(m);
    assert(magnitude(x) == bits_of_nat(m));
    assert(is_finite(x));
    assert(uint32_of(x) == n % 0x1_0000_0000);
}

// ------------------------------------------------------------ bit operations

/// The bits of a 32 bit number.
pub open spec fn of_int32(n: i32) -> u64 {
    bits_of_int(n as int) as u64
}

/// JavaScript's `a & b`.
pub open spec fn bit_and(a: u64, b: u64) -> u64 {
    of_int32(int32_of(a) & int32_of(b))
}

/// JavaScript's `a | b`.
pub open spec fn bit_or(a: u64, b: u64) -> u64 {
    of_int32(int32_of(a) | int32_of(b))
}

/// JavaScript's `a ^ b`.
pub open spec fn bit_xor(a: u64, b: u64) -> u64 {
    of_int32(int32_of(a) ^ int32_of(b))
}

/// JavaScript's `~a`.
pub open spec fn bit_not(a: u64) -> u64 {
    of_int32((-1 - int32_of(a)) as i32)
}

/// JavaScript's `a << b`.
pub open spec fn shift_left(a: u64, b: u64) -> u64 {
    of_int32(int32_of(a) << (uint32_of(b) % 32))
}

/// JavaScript's `a >> b`.
pub open spec fn shift_right(a: u64, b: u64) -> u64 {
    of_int32(int32_of(a) >> (uint32_of(b) % 32))
}

/// JavaScript's `a >>> b`.
pub open spec fn shift_right_zero(a: u64, b: u64) -> u64 {
    bits_of_nat((uint32_of(a) >> (uint32_of(b) % 32)) as nat) as u64
}

/// `a & b`.
pub fn num_and(a: u64, b: u64) -> (r: u64)
    ensures
        r == bit_and(a, b),
{
    from_i64((to_int32(a) & to_int32(b)) as i64)
}

/// `a | b`.
pub fn num_or(a: u64, b: u64) -> (r: u64)
    ensures
        r == bit_or(a, b),
{
    from_i64((to_int32(a) | to_int32(b)) as i64)
}

/// `a ^ b`.
pub fn num_xor(a: u64, b: u64) -> (r: u64)
    ensures
        r == bit_xor(a, b),
{
    from_i64((to_int32(a) ^ to_int32(b)) as i64)
}

/// `~a`.
pub fn num_not(a: u64) -> (r: u64)
    ensures
        r == bit_not(a),
{
    from_i64(-1 - to_int32(a) as i64)
}

/// `a << b`.
pub fn num_shl(a: u64, b: u64) -> (r: u64)
    ensures
        r == shift_left(a, b),
{
    let n: u32 = to_uint32(b) % 32;
    from_i64((to_int32(a) << n) as i64)
}

/// `a >> b`.
pub fn num_shr(a: u64, b: u64) -> (r: u64)
    ensures
        r == shift_right(a, b),
{
    let n: u32 = to_uint32(b) % 32;
    from_i64((to_int32(a) >> n) as i64)
}

/// `a >>> b`.
pub fn num_ushr(a: u64, b: u64) -> (r: u64)
    ensures
        r == shift_right_zero(a, b),
{
    let n: u32 = to_uint32(b) % 32;
    from_u64((to_uint32(a) >> n) as u64)
}

// ------------------------------------------------------------------- text

/// The characters that `parseInt` skips at both ends.
pub open spec fn is_blank(c: char) -> bool {
    ||| c == '\u{9}' || c == '\u{a}' || c == '\u{b}' || c == '\u{c}' || c == '\u{d}' || c == ' '
    ||| c == '\u{85}' || c == '\u{a0}' || c == '\u{1680}'
    ||| '\u{2000}' <= c <= '\u{200a}'
    ||| c == '\u{2028}' || c == '\u{2029}' || c == '\u{202f}' || c == '\u{205f}'
    ||| c == '\u{3000}' || c == '\u{feff}'
}

/// Whether `parseInt` skips `c` at either end.
pub fn is_js_ws(c: char) -> (r: bool)
    ensures
        r == is_blank(c),
{
    c == '\u{9}' || c == '\u{a}' || c == '\u{b}' || c == '\u{c}' || c == '\u{d}' || c == ' '
        || c == '\u{85}' || c == '\u{a0}' || c == '\u{1680}' || ('\u{2000}' <= c && c <= '\u{200a}')
        || c == '\u{2028}' || c == '\u{2029}' || c == '\u{202f}' || c == '\u{205f}'
        || c == '\u{3000}' || c == '\u{feff}'
}

/// The first place at or after `i` that is not blank.
pub open spec fn skip_blank(s: Seq<char>, i: int) -> int
    decreases s.len() - i,
{
    if 0 <= i < s.len() && is_blank(s[i]) { skip_blank(s, i + 1) } else { i }
}

/// The end of `s[..j]` without the blanks before it, not before `lo`.
pub open spec fn drop_blank(s: Seq<char>, lo: int, j: int) -> int
    decreases j - lo,
{
    if lo < j <= s.len() && is_blank(s[j - 1]) { drop_blank(s, lo, j - 1) } else { j }
}

/// The text without the blanks at both ends.
pub open spec fn without_blanks(s: Seq<char>) -> Seq<char> {
    let a = skip_blank(s, 0);
    s.subrange(a, drop_blank(s, a, s.len() as int))
}

/// The value of a digit: hexadecimal ones count only in base 16.
pub open spec fn digit_value(c: char, radix: u32) -> Option<u32> {
    if '0' <= c <= '9' {
        Some((c as u32 - '0' as u32) as u32)
    } else if radix == 16 && 'a' <= c <= 'f' {
        Some((c as u32 - 'a' as u32 + 10) as u32)
    } else if radix == 16 && 'A' <= c <= 'F' {
        Some((c as u32 - 'A' as u32 + 10) as u32)
    } else {
        None
    }
}

/// `c` is a digit of base `radix`.
pub open spec fn is_digit(c: char, radix: u32) -> bool {
    digit_value(c, radix) matches Some(d) && d < radix
}

/// The end of the digits that start at `i`.
pub open spec fn digits_end(t: Seq<char>, i: int, radix: u32) -> int
    decreases t.len() - i,
{
    if 0 <= i < t.len() && is_digit(t[i], radix) { digits_end(t, i + 1, radix) } else { i }
}

impl FloatsV {
    /// The value of the digits `t[i..j]`, each taken in by `acc * radix + digit`.
    pub open spec fn digits_value(&self, t: Seq<char>, i: int, j: int, radix: u32) -> u64
        decreases j - i,
    {
        if i >= j {
            0
        } else {
            let acc = self.digits_value(t, i, j - 1, radix);
            (self.op)(
                ArithOp::Add,
                (self.op)(ArithOp::Mul, acc, bits_of_nat(radix as nat) as u64),
                bits_of_nat(digit_value(t[j - 1], radix)->0 as nat) as u64,
            )
        }
    }

    /// What `parseInt(s, radix)` gives; radix zero stands for none.
    pub open spec fn parse_int_of(&self, s: Seq<char>, radix: u32) -> u64 {
        let t = without_blanks(s);
        let signed = t.len() > 0 && (t[0] == '+' || t[0] == '-');
        let i: int = if signed { 1 } else { 0 };
        let hex = (radix == 16 || radix == 0) && i + 2 < t.len() && t[i] == '0' && (t[i + 1] == 'x'
            || t[i + 1] == 'X') && is_digit(t[i + 2], 16);
        let start = if hex { i + 2 } else { i };
        let r: u32 = if hex { 16 } else if radix == 0 { 10 } else { radix };
        let end = digits_end(t, start, r);
        let v = self.digits_value(t, start, end, r);
        if end == start {
            NAN
        } else if signed && t[0] == '-' {
            negated(v)
        } else {
            v
        }
    }

    /// How JavaScript writes a number: whole numbers below ten to the power of 21
    /// as 64 bit integers, the others by the caller's `show`.
    pub open spec fn num_text(&self, b: u64) -> Seq<char> {
        if is_nan(b) {
            "NaN"@
        } else if is_infinite(b) {
            if negative(b) { "-Infinity"@ } else { "Infinity"@ }
        } else if is_integral(b) && magnitude(b) < E21 {
            decimal_int(int64_of(b) as int)
        } else {
            (self.shown)(b)
        }
    }
}

/// The value of a digit.
pub fn value_of_digit(c: char, radix: u32) -> (r: Option<u32>)
    ensures
        r == digit_value(c, radix),
        r matches Some(d) ==> d < 16,
{
    if '0' <= c && c <= '9' {
        Some(c as u32 - '0' as u32)
    } else if radix == 16 && 'a' <= c && c <= 'f' {
        Some(c as u32 - 'a' as u32 + 10)
    } else if radix == 16 && 'A' <= c && c <= 'F' {
        Some(c as u32 - 'A' as u32 + 10)
    } else {
        None
    }
}

/// Whether `c` is a digit of base `radix`.
pub fn digit(c: char, radix: u32) -> (r: bool)
    ensures
        r == is_digit(c, radix),
{
    match value_of_digit(c, radix) {
        Some(d) => d < radix,
        None => false,
    }
}

/// The bounds of the text between the blanks at both ends.
fn blank_bounds(s: &Vec<char>) -> (r: (usize, usize))
    ensures
        r.0 == skip_blank(s@, 0),
        r.1 == drop_blank(s@, r.0 as int, s@.len() as int),
        r.0 <= r.1 <= s@.len(),
{
    let mut a: usize = 0;
    while a < s.len() && is_js_ws(s[a])
        invariant
            a <= s@.len(),
            skip_blank(s@, 0) == skip_blank(s@, a as int),
        decreases s@.len() - a,
    {
        a += 1;
    }
    let mut z: usize = s.len();
    while a < z && is_js_ws(s[z - 1])
        invariant
            a <= z <= s@.len(),
            drop_blank(s@, a as int, s@.len() as int) == drop_blank(s@, a as int, z as int),
        decreases z,
    {
        z -= 1;
    }
    (a, z)
}

/// `parseInt(s, radix)`; radix zero stands for none.
pub fn js_parse_int_radix<F: FloatOps>(s: &str, radix: u32, fl: &F) -> (v: u64)
    requires
        fl.ok(),
    ensures
        v == fl.model().parse_int_of(s@, radix),
{
    let all = chars_of(s);
    let (a, z) = blank_bounds(&all);
    let ghost t = without_blanks(s@);
    assert(t.len() == z - a);
    assert(forall|k: int| 0 <= k < t.len() ==> t[k] == all@[a + k]);
    let n: usize = z - a;
    let mut i: usize = 0;
    let mut neg: bool = false;
    if n > 0 && (all[a] == '+' || all[a] == '-') {
        neg = all[a] == '-';
        i = 1;
    }
    let mut r: u32 = if radix == 0 { 10 } else { radix };
    if (radix == 16 || radix == 0) && n > 2 && i + 2 < n && all[a + i] == '0' && (all[a + i + 1] == 'x'
        || all[a + i + 1] == 'X') && digit(all[a + i + 2], 16) {
        i = i + 2;
        r = 16;
    }
    let start: usize = i;
    let mut acc: u64 = 0;
    let base: u64 = from_u64(r as u64);
    while i < n && digit(all[a + i], r)
        invariant
            fl.ok(),
            n == z - a,
            z <= all@.len(),
            a <= z,
            start <= i <= n,
            t.len() == n,
            forall|k: int| 0 <= k < t.len() ==> t[k] == all@[a + k],
            base == bits_of_nat(r as nat),
            digits_end(t, start as int, r) == digits_end(t, i as int, r),
            acc == fl.model().digits_value(t, start as int, i as int, r),
        decreases n - i,
    {
        let d: u32 = match value_of_digit(all[a + i], r) {
            Some(d) => d,
            None => 0,
        };
        let w: u64 = from_u64(d as u64);
        let scaled: u64 = fl.compute(ArithOp::Mul, acc, base);
        acc = fl.compute(ArithOp::Add, scaled, w);
        i += 1;
    }
    if i == start {
        NAN
    } else if neg {
        negate(acc)
    } else {
        acc
    }
}

/// `parseInt(s)`.
pub fn js_parse_int<F: FloatOps>(s: &str, fl: &F) -> (v: u64)
    requires
        fl.ok(),
    ensures
        v == fl.model().parse_int_of(s@, 0),
{
    js_parse_int_radix(s, 0, fl)
}

/// How JavaScript writes the number `b`.
pub fn format_js_num<F: FloatOps>(b: u64, fl: &F) -> (s: String)
    requires
        fl.ok(),
    ensures
        s@ == fl.model().num_text(b),
{
    if nan(b) {
        own("NaN")
    } else if !finite(b) {
        if b >= SIGN { own("-Infinity") } else { own("Infinity") }
    } else if integral(b) && absolute(b) < E21 {
        dec_i64(to_i64(b))
    } else {
        fl.write(b)
    }
}

// -------------------------------------------------------------- JSON strings

/// The ASCII code of a hexadecimal digit.
pub open spec fn hex_byte(d: int) -> u8 {
    digit_char(d) as u8
}

/// A control byte as `\u00..`.
pub open spec fn unicode_escape(b: u8) -> Seq<u8> {
    seq![0x5cu8, 0x75u8, 0x30u8, 0x30u8, hex_byte(b as int / 16), hex_byte(b as int % 16)]
}

/// One byte inside a JSON string, with the short escapes of JSON.
pub open spec fn json_byte(b: u8) -> Seq<u8> {
    if b == 0x22 {
        seq![0x5cu8, 0x22u8]
    } else if b == 0x5c {
        seq![0x5cu8, 0x5cu8]
    } else if b == 0x0a {
        seq![0x5cu8, 0x6eu8]
    } else if b == 0x0d {
        seq![0x5cu8, 0x72u8]
    } else if b == 0x09 {
        seq![0x5cu8, 0x74u8]
    } else if b == 0x08 {
        seq![0x5cu8, 0x62u8]
    } else if b == 0x0c {
        seq![0x5cu8, 0x66u8]
    } else if b < 0x20 {
        unicode_escape(b)
    } else {
        seq![b]
    }
}

/// A byte string inside a JSON string.
pub open spec fn json_bytes(raw: Seq<u8>) -> Seq<u8>
    decreases raw.len(),
{
    if raw.len() == 0 { seq![] } else { json_bytes(raw.drop_last()) + json_byte(raw.last()) }
}

/// The ASCII code of a hexadecimal digit.
pub fn hex_digit(d: u8) -> (c: u8)
    requires
        d < 16,
    ensures
        c == hex_byte(d as int),
        d < 10 ==> c == 0x30 + d,
        d >= 10 ==> c == 0x57 + d,
{
    if d < 10 { 0x30 + d } else { 0x57 + d }
}

/// Appends `raw` to `out` as it stands inside a JSON string.
pub fn json_escape_into(raw: &[u8], out: &mut Vec<u8>)
    ensures
        final(out)@ == old(out)@ + json_bytes(raw@),
{
    let ghost start = out@;
    let mut i: usize = 0;
    assert(out@ =~= start + json_bytes(raw@.take(0)));
    while i < raw.len()
        invariant
            i <= raw@.len(),
            out@ == start + json_bytes(raw@.take(i as int)),
        decreases raw@.len() - i,
    {
        let b: u8 = raw[i];
        let ghost before = out@;
        if b == 0x22 {
            push_bytes(out, &[0x5c, 0x22]);
        } else if b == 0x5c {
            push_bytes(out, &[0x5c, 0x5c]);
        } else if b == 0x0a {
            push_bytes(out, &[0x5c, 0x6e]);
        } else if b == 0x0d {
            push_bytes(out, &[0x5c, 0x72]);
        } else if b == 0x09 {
            push_bytes(out, &[0x5c, 0x74]);
        } else if b == 0x08 {
            push_bytes(out, &[0x5c, 0x62]);
        } else if b == 0x0c {
            push_bytes(out, &[0x5c, 0x66]);
        } else if b < 0x20 {
            push_bytes(out, &[0x5c, 0x75, 0x30, 0x30, hex_digit(b / 16), hex_digit(b % 16)]);
        } else {
            out.push(b);
        }
        assert(out@ =~= before + json_byte(b));
        i += 1;
        assert(raw@.take(i as int).drop_last() =~= raw@.take(i - 1));
        assert(out@ =~= start + json_bytes(raw@.take(i as int)));
    }
    assert(raw@.take(i as int) =~= raw@);
}

} // verus!
