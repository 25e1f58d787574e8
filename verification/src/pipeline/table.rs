//! Places in a string table that is closed to a ring.
use vstd::prelude::*;

verus! {

/// A number cut down to 64 bits, as two's complement arithmetic does.
pub open spec fn wrap64(x: int) -> i64 {
    let low = x % 0x1_0000_0000_0000_0000;
    if low >= 0x8000_0000_0000_0000 {
        (low - 0x1_0000_0000_0000_0000) as i64
    } else {
        low as i64
    }
}

/// A number of up to 66 bits, cut down to 64.
fn fold64(x: i128) -> (r: i64)
    requires
        -0x2_0000_0000_0000_0000 <= x <= 0x2_0000_0000_0000_0000,
    ensures
        r == wrap64(x as int),
{
    let mut y: i128 = x;
    while y > 0x7fff_ffff_ffff_ffff
        invariant
            -0x2_0000_0000_0000_0000 <= y <= 0x2_0000_0000_0000_0000,
            wrap64(y as int) == wrap64(x as int),
        decreases y + 0x4_0000_0000_0000_0000,
    {
        y = y - 0x1_0000_0000_0000_0000;
    }
    while y < -0x8000_0000_0000_0000
        invariant
            -0x2_0000_0000_0000_0000 <= y <= 0x7fff_ffff_ffff_ffff,
            wrap64(y as int) == wrap64(x as int),
        decreases 0x4_0000_0000_0000_0000 - y,
    {
        y = y + 0x1_0000_0000_0000_0000;
    }
    y as i64
}

/// `a - b`, cut down to 64 bits.
pub fn sub64(a: i64, b: i64) -> (r: i64)
    ensures
        r == wrap64(a - b),
{
    fold64(a as i128 - b as i128)
}

/// `a + k`, cut down to 64 bits.
pub fn ahead(a: i64, k: usize) -> (r: i64)
    ensures
        r == wrap64(a + k),
{
    fold64(a as i128 + k as i128)
}

/// `a - k`, cut down to 64 bits.
pub fn back(a: i64, k: usize) -> (r: i64)
    ensures
        r == wrap64(a - k),
{
    fold64(a as i128 - k as i128)
}

/// The place of `x` on a ring of `n`.
pub fn mod_i64(x: i64, n: usize) -> (r: usize)
    requires
        n > 0,
    ensures
        r == (x as int) % (n as int),
        r < n,
{
    if x >= 0 {
        (x as u64 % n as u64) as usize
    } else {
        let m: u64 = (-(x + 1)) as u64;
        let k: u64 = m % n as u64;
        proof {
            let q = m as int / n as int;
            assert(m == n * q + k) by {
                vstd::arithmetic::div_mod::lemma_fundamental_div_mod(m as int, n as int);
            }
            assert((x as int) % (n as int) == n - 1 - k) by {
                assert(x as int == (n as int) * (-1 - q) + (n - 1 - k)) by (nonlinear_arith)
                    requires
                        m == n * q + k,
                        m == -(x as int) - 1,
                ;
                vstd::arithmetic::div_mod::lemma_fundamental_div_mod_converse(
                    x as int,
                    n as int,
                    -1 - q,
                    n - 1 - k,
                );
            }
        }
        n - 1 - k as usize
    }
}

} // verus!
