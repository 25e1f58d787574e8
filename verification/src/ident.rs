//! Identifiers and seeds out of entropy, and the time in milliseconds.
use vstd::prelude::*;

use crate::err::Net;
#[allow(unused_imports)]
use crate::err::NetV;
#[allow(unused_imports)]
use crate::jsnum::{hex_byte, hex_digit};
use crate::text::own;

verus! {

/// The first `n` bytes in hexadecimal.
pub open spec fn hex_text(b: Seq<u8>, n: int) -> Seq<u8>
    decreases n,
{
    if n <= 0 || n > b.len() {
        seq![]
    } else {
        hex_text(b, n - 1) + seq![hex_byte(b[n - 1] as int / 16), hex_byte(b[n - 1] as int % 16)]
    }
}

fn no_entropy() -> (e: Net)
    ensures
        e@ == NetV::Urandom("os entropy"@),
{
    Net::Urandom(own("os entropy"))
}

/// Writes an identifier of thirty-two hexadecimal digits out of sixteen random bytes,
/// if there are any.
pub fn journey_hex(entropy: Option<[u8; 16]>, out: &mut [u8; 32]) -> (r: Result<(), Net>)
    ensures
        match entropy {
            Some(b) => r is Ok && final(out)@ == hex_text(b@, 16),
            None => final(out)@ == old(out)@ && (r matches Err(e) && e@ == NetV::Urandom(
                "os entropy"@,
            )),
        },
{
    let b: [u8; 16] = match entropy {
        Some(b) => b,
        None => return Err(no_entropy()),
    };
    let mut i: usize = 0;
    while i < 16
        invariant
            i <= 16,
            out@.take(i * 2) == hex_text(b@, i as int),
        decreases 16 - i,
    {
        let ghost was = out@.take(i * 2);
        out[i * 2] = hex_digit(b[i] / 16);
        out[i * 2 + 1] = hex_digit(b[i] % 16);
        i += 1;
        assert(out@.take(i * 2) =~= was + seq![
            hex_byte(b@[i - 1] as int / 16),
            hex_byte(b@[i - 1] as int % 16),
        ]);
    }
    assert(out@.take(32) =~= out@);
    Ok(())
}

/// Sixteen bytes with the version and the variant of a random identifier.
pub open spec fn stamped(b: Seq<u8>) -> Seq<u8> {
    b.update(6, (b[6] % 16 + 0x40) as u8).update(8, (b[8] % 64 + 0x80) as u8)
}

/// The first `n` bytes in hexadecimal, with a dash before the fifth, the seventh, the
/// ninth and the eleventh.
pub open spec fn dashed(b: Seq<u8>, n: int) -> Seq<u8>
    decreases n,
{
    if n <= 0 || n > b.len() {
        seq![]
    } else {
        dashed(b, n - 1) + (if n == 5 || n == 7 || n == 9 || n == 11 {
            seq![0x2du8]
        } else {
            seq![]
        }) + seq![hex_byte(b[n - 1] as int / 16), hex_byte(b[n - 1] as int % 16)]
    }
}

/// How long the text of the first `n` bytes is.
pub open spec fn dashed_len(n: int) -> int {
    2 * n + (if n >= 5 { 1int } else { 0int }) + (if n >= 7 { 1int } else { 0int }) + (if n >= 9 {
        1int
    } else {
        0int
    }) + (if n >= 11 { 1int } else { 0int })
}

/// Writes a random identifier in its usual form out of sixteen random bytes, if there
/// are any.
pub fn uuid_v4(entropy: Option<[u8; 16]>, out: &mut [u8; 36]) -> (r: Result<(), Net>)
    ensures
        match entropy {
            Some(b) => r is Ok && final(out)@ == dashed(stamped(b@), 16),
            None => final(out)@ == old(out)@ && (r matches Err(e) && e@ == NetV::Urandom(
                "os entropy"@,
            )),
        },
{
    let mut b: [u8; 16] = match entropy {
        Some(b) => b,
        None => return Err(no_entropy()),
    };
    let ghost given = b@;
    b[6] = b[6] % 16 + 0x40;
    b[8] = b[8] % 64 + 0x80;
    assert(b@ =~= stamped(given));
    let mut w: usize = 0;
    let mut i: usize = 0;
    while i < 16
        invariant
            i <= 16,
            w == dashed_len(i as int),
            out@.take(w as int) == dashed(b@, i as int),
        decreases 16 - i,
    {
        let ghost was = out@.take(w as int);
        if i == 4 || i == 6 || i == 8 || i == 10 {
            out[w] = 0x2d;
            w += 1;
        }
        out[w] = hex_digit(b[i] / 16);
        out[w + 1] = hex_digit(b[i] % 16);
        w += 2;
        i += 1;
        assert(out@.take(w as int) =~= was + (if i == 5 || i == 7 || i == 9 || i == 11 {
            seq![0x2du8]
        } else {
            seq![]
        }) + seq![hex_byte(b@[i - 1] as int / 16), hex_byte(b@[i - 1] as int % 16)]);
    }
    assert(out@.take(36) =~= out@);
    Ok(())
}

proof fn lemma_dashed_len(b: Seq<u8>, n: int)
    requires
        0 <= n <= b.len(),
    ensures
        dashed(b, n).len() == dashed_len(n),
    decreases n,
{
    if n > 0 {
        lemma_dashed_len(b, n - 1);
    }
}

proof fn lemma_dashed_prefix(b: Seq<u8>, k: int, n: int)
    requires
        0 <= k <= n <= b.len(),
    ensures
        dashed(b, n).take(dashed_len(k)) == dashed(b, k),
    decreases n,
{
    lemma_dashed_len(b, k);
    lemma_dashed_len(b, n);
    if k < n {
        lemma_dashed_prefix(b, k, n - 1);
        lemma_dashed_len(b, n - 1);
        assert(dashed(b, n).take(dashed_len(k)) =~= dashed(b, n - 1).take(dashed_len(k)));
    } else {
        assert(dashed(b, n).take(dashed_len(k)) =~= dashed(b, n));
    }
}

/// A digit of a hexadecimal number, in small letters.
pub open spec fn is_hex(b: u8) -> bool {
    0x30 <= b <= 0x39 || 0x61 <= b <= 0x66
}

proof fn lemma_dashed_hex(b: Seq<u8>, n: int)
    requires
        0 <= n <= b.len(),
    ensures
        forall|i: int|
            0 <= i < dashed(b, n).len() && i != 8 && i != 13 && i != 18 && i != 23 ==> is_hex(
                #[trigger] dashed(b, n)[i],
            ),
    decreases n,
{
    if n > 0 {
        lemma_dashed_hex(b, n - 1);
        lemma_dashed_len(b, n - 1);
        lemma_dashed_len(b, n);
        let t = dashed(b, n);
        let u = dashed(b, n - 1);
        assert forall|i: int|
            0 <= i < t.len() && i != 8 && i != 13 && i != 18 && i != 23 implies is_hex(
            #[trigger] t[i],
        ) by {
            if i < u.len() {
                assert(t[i] == u[i]);
            }
        }
    }
}

/// A random identifier has its four dashes in place, digits everywhere else, says that
/// it is of the fourth version, and has the variant of those.
pub proof fn lemma_uuid_form(b: Seq<u8>)
    requires
        b.len() == 16,
    ensures
        ({
            let t = dashed(stamped(b), 16);
            &&& t.len() == 36
            &&& t[8] == 0x2d && t[13] == 0x2d && t[18] == 0x2d && t[23] == 0x2d
            &&& t[14] == 0x34
            &&& t[19] == 0x38 || t[19] == 0x39 || t[19] == 0x61 || t[19] == 0x62
            &&& forall|i: int|
                0 <= i < 36 && i != 8 && i != 13 && i != 18 && i != 23 ==> is_hex(#[trigger] t[i])
        }),
{
    let s = stamped(b);
    let t = dashed(s, 16);
    lemma_dashed_len(s, 16);
    lemma_dashed_hex(s, 16);
    lemma_dashed_prefix(s, 5, 16);
    lemma_dashed_prefix(s, 7, 16);
    lemma_dashed_prefix(s, 9, 16);
    lemma_dashed_prefix(s, 11, 16);
    lemma_dashed_len(s, 4);
    lemma_dashed_len(s, 5);
    lemma_dashed_len(s, 6);
    lemma_dashed_len(s, 7);
    lemma_dashed_len(s, 8);
    lemma_dashed_len(s, 9);
    lemma_dashed_len(s, 10);
    lemma_dashed_len(s, 11);
    assert(dashed(s, 5)[8] == 0x2d);
    assert(dashed(s, 7)[13] == 0x2d);
    assert(dashed(s, 9)[18] == 0x2d);
    assert(dashed(s, 11)[23] == 0x2d);
    assert(t[8] == t.take(dashed_len(5))[8]);
    assert(t[13] == t.take(dashed_len(7))[13]);
    assert(t[18] == t.take(dashed_len(9))[18]);
    assert(t[23] == t.take(dashed_len(11))[23]);
    assert(s[6] / 16 == 4);
    assert(dashed(s, 7)[14] == hex_byte(4));
    assert(t[14] == t.take(dashed_len(7))[14]);
    assert(8 <= s[8] / 16 < 12);
    assert(dashed(s, 9)[19] == hex_byte(s[8] as int / 16));
    assert(t[19] == t.take(dashed_len(9))[19]);
}

/// A seed out of eight random bytes; a fixed one where there are none.
pub fn seed(entropy: Option<[u8; 8]>) -> (r: u64)
    ensures
        match entropy {
            Some(b) => r == b@[0] + 0x100 * b@[1] + 0x1_0000 * b@[2] + 0x100_0000 * b@[3]
                + 0x1_0000_0000 * b@[4] + 0x100_0000_0000 * b@[5] + 0x1_0000_0000_0000 * b@[6]
                + 0x100_0000_0000_0000 * b@[7],
            None => r == 0x9E37_79B9_7F4A_7C15,
        },
{
    match entropy {
        Some(b) => b[0] as u64 + 0x100 * b[1] as u64 + 0x1_0000 * b[2] as u64 + 0x100_0000
            * b[3] as u64 + 0x1_0000_0000 * b[4] as u64 + 0x100_0000_0000 * b[5] as u64
            + 0x1_0000_0000_0000 * b[6] as u64 + 0x100_0000_0000_0000 * b[7] as u64,
        None => 0x9E37_79B9_7F4A_7C15,
    }
}

/// `SystemTime::elapsed` of the Unix epoch: the milliseconds since then, or `None`
/// where the clock stands before it. What the clock shows is not stated.
#[verifier::external_body]
fn since_epoch() -> (r: Option<u128>) {
    std::time::UNIX_EPOCH.elapsed().ok().map(|d| d.as_millis())
}

/// A count of milliseconds in sixty-four bits; zero where there is none.
pub fn millis(elapsed: Option<u128>) -> (r: u64)
    ensures
        r == (match elapsed {
            Some(n) => n % 0x1_0000_0000_0000_0000,
            None => 0,
        }),
{
    match elapsed {
        Some(n) => (n % 0x1_0000_0000_0000_0000) as u64,
        None => 0,
    }
}

/// The milliseconds since the Unix epoch. What the clock shows is not stated.
pub fn now_ms() -> (r: u64) {
    millis(since_epoch())
}

} // verus!
