//! Numbers as text.
use vstd::prelude::*;

#[allow(unused_imports)]
use crate::floats::FloatsV;
#[allow(unused_imports)]
use crate::ints::{all_digits, number_of, u64_text};
#[allow(unused_imports)]
use crate::jsnum::{
    bits_of_int, bits_of_nat, is_digit, is_integral, lemma_exact, lemma_whole_order, magnitude,
};
#[allow(unused_imports)]
use crate::solver::unit_escape;
#[allow(unused_imports)]
use crate::text::{decimal, decimal_int, digit_char, digits, zero_padded};

verus! {

proof fn lemma_digits_read(n: nat, radix: u32)
    requires
        radix == 10 || radix == 16,
    ensures
        number_of(digits(n, radix as nat), radix) == n,
        all_digits(digits(n, radix as nat), radix),
        n > 0 ==> digits(n, radix as nat)[0] != '0',
        n > 0 ==> digits(n, radix as nat)[0] != '+',
    decreases n,
{
    let d = digits(n, radix as nat);
    if n < radix {
        assert(d =~= seq![digit_char(n as int)]);
        assert(d.drop_last() =~= seq![]);
        assert(number_of(d.drop_last(), radix) == 0);
        assert(d.last() == digit_char(n as int));
    } else {
        let q = n / (radix as nat);
        assert(q < n && q > 0) by (nonlinear_arith)
            requires
                n >= radix,
                radix >= 10,
                q == n / (radix as nat),
        ;
        lemma_digits_read(q, radix);
        let u = digits(q, radix as nat);
        assert(d =~= u.push(digit_char((n % (radix as nat)) as int)));
        assert(d.drop_last() =~= u);
        assert(n == q * (radix as nat) + n % (radix as nat)) by (nonlinear_arith)
            requires
                q == n / (radix as nat),
                radix >= 10,
        ;
        assert forall|i: int| 0 <= i < d.len() implies is_digit(#[trigger] d[i], radix) by {
            if i < u.len() {
                assert(d[i] == u[i]);
            }
        }
        assert(d[0] == u[0]);
    }
}

/// The decimal text of a number denotes it, and has no zero in front that it does not
/// need. A negative number has a minus in front of the text of the positive one.
pub proof fn lemma_decimal(n: nat)
    ensures
        number_of(decimal(n), 10) == n,
        all_digits(decimal(n), 10),
        n > 0 ==> decimal(n)[0] != '0',
        decimal(0) == seq!['0'],
        n > 0 ==> decimal_int(-(n as int)) == seq!['-'] + decimal(n),
        decimal_int(n as int) == decimal(n),
        n <= u64::MAX ==> u64_text(decimal(n)) == Some(n),
{
    lemma_digits_read(n, 10);
    assert(decimal(0) =~= seq!['0']);
    assert(decimal(n).len() > 0);
    assert(is_digit(decimal(n)[0], 10));
}

proof fn lemma_leading_zeros(s: Seq<char>, k: nat)
    ensures
        number_of(Seq::new(k, |i: int| '0') + s, 16) == number_of(s, 16),
    decreases s.len(), k,
{
    let z = Seq::new(k, |i: int| '0');
    let t = z + s;
    if s.len() > 0 {
        lemma_leading_zeros(s.drop_last(), k);
        assert(t.drop_last() =~= z + s.drop_last());
        assert(t.last() == s.last());
    } else if k > 0 {
        let y = Seq::new((k - 1) as nat, |i: int| '0');
        lemma_leading_zeros(s, (k - 1) as nat);
        assert(t.drop_last() =~= y + s);
        assert(t.last() == '0');
    } else {
        assert(t =~= s);
    }
}

/// An escaped unit is a backslash, a `u` and four hexadecimal digits that denote it.
pub proof fn lemma_unit_escape(n: int)
    requires
        0 <= n < 0x10000,
    ensures
        unit_escape(n).len() == 6,
        unit_escape(n)[0] == '\\',
        unit_escape(n)[1] == 'u',
        number_of(unit_escape(n).subrange(2, 6), 16) == n,
{
    reveal_strlit("\\u");
    let d = digits(n as nat, 16);
    lemma_digits_read(n as nat, 16);
    lemma_hex_len(n as nat);
    let p = zero_padded(d, 4);
    assert(p.len() == 4);
    assert(unit_escape(n).subrange(2, 6) =~= p);
    if d.len() < 4 {
        lemma_leading_zeros(d, (4 - d.len()) as nat);
        assert(p =~= Seq::new((4 - d.len()) as nat, |i: int| '0') + d);
    }
}

proof fn lemma_hex_len(n: nat)
    requires
        n < 0x10000,
    ensures
        digits(n, 16).len() <= 4,
{
    reveal_with_fuel(digits, 5);
}

/// A whole number is written as the integer that it is.
pub proof fn lemma_whole_text(fl: FloatsV, n: int)
    requires
        -0x20_0000_0000_0000 < n < 0x20_0000_0000_0000,
    ensures
        fl.num_text(bits_of_int(n) as u64) == decimal_int(n),
{
    let m = if n < 0 { (-n) as nat } else { n as nat };
    let b = bits_of_int(n) as u64;
    lemma_exact(m);
    lemma_whole_order(n, n);
    assert(magnitude(b) == bits_of_nat(m));
    assert(is_integral(b) == is_integral(bits_of_nat(m) as u64));
    crate::jsnum::lemma_whole_bits(m);
}

} // verus!
