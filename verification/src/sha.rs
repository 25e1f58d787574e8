//! SHA-256.
use vstd::prelude::*;

#[allow(unused_imports)]
use crate::b64::{encode_string, encoded};
#[allow(unused_imports)]
use crate::text::latin;
use vstd::utf8::encode_utf8;

verus! {

/// The round constants.
pub const K32: [u32; 64] = [
    0x428a2f98,
    0x71374491,
    0xb5c0fbcf,
    0xe9b5dba5,
    0x3956c25b,
    0x59f111f1,
    0x923f82a4,
    0xab1c5ed5,
    0xd807aa98,
    0x12835b01,
    0x243185be,
    0x550c7dc3,
    0x72be5d74,
    0x80deb1fe,
    0x9bdc06a7,
    0xc19bf174,
    0xe49b69c1,
    0xefbe4786,
    0x0fc19dc6,
    0x240ca1cc,
    0x2de92c6f,
    0x4a7484aa,
    0x5cb0a9dc,
    0x76f988da,
    0x983e5152,
    0xa831c66d,
    0xb00327c8,
    0xbf597fc7,
    0xc6e00bf3,
    0xd5a79147,
    0x06ca6351,
    0x14292967,
    0x27b70a85,
    0x2e1b2138,
    0x4d2c6dfc,
    0x53380d13,
    0x650a7354,
    0x766a0abb,
    0x81c2c92e,
    0x92722c85,
    0xa2bfe8a1,
    0xa81a664b,
    0xc24b8b70,
    0xc76c51a3,
    0xd192e819,
    0xd6990624,
    0xf40e3585,
    0x106aa070,
    0x19a4c116,
    0x1e376c08,
    0x2748774c,
    0x34b0bcb5,
    0x391c0cb3,
    0x4ed8aa4a,
    0x5b9cca4f,
    0x682e6ff3,
    0x748f82ee,
    0x78a5636f,
    0x84c87814,
    0x8cc70208,
    0x90befffa,
    0xa4506ceb,
    0xbef9a3f7,
    0xc67178f2,
];

/// The state before the first block.
pub const H0: [u32; 8] = [
    0x6a09e667,
    0xbb67ae85,
    0x3c6ef372,
    0xa54ff53a,
    0x510e527f,
    0x9b05688c,
    0x1f83d9ab,
    0x5be0cd19,
];

// ---------------------------------------------------------------- the compression function

/// Addition modulo two to the thirty-second.
pub open spec fn plus(a: u32, b: u32) -> u32 {
    ((a + b) % 0x1_0000_0000) as u32
}

/// Rotation to the right.
pub open spec fn rotr(x: u32, n: u32) -> u32 {
    (x >> n) | (x << ((32 - n) as u32))
}

/// The mixing of the word fifteen places back in the message schedule.
pub open spec fn small0(x: u32) -> u32 {
    rotr(x, 7) ^ rotr(x, 18) ^ (x >> 3u32)
}

/// The mixing of the word two places back in the message schedule.
pub open spec fn small1(x: u32) -> u32 {
    rotr(x, 17) ^ rotr(x, 19) ^ (x >> 10u32)
}

/// The mixing of the first working word of a round.
pub open spec fn big0(x: u32) -> u32 {
    rotr(x, 2) ^ rotr(x, 13) ^ rotr(x, 22)
}

/// The mixing of the fifth working word of a round.
pub open spec fn big1(x: u32) -> u32 {
    rotr(x, 6) ^ rotr(x, 11) ^ rotr(x, 25)
}

/// For each bit, `y` or `z` as `x` says.
pub open spec fn choice(x: u32, y: u32, z: u32) -> u32 {
    (x & y) ^ (!x & z)
}

/// For each bit, what two of the three have.
pub open spec fn majority(x: u32, y: u32, z: u32) -> u32 {
    (x & y) ^ (x & z) ^ (y & z)
}

/// A number of four bytes, the most significant first.
pub open spec fn big_endian(a: u8, b: u8, c: u8, d: u8) -> u32 {
    (a * 0x100_0000 + b * 0x1_0000 + c * 0x100 + d) as u32
}

/// A word of the message schedule of a block.
pub open spec fn word(block: Seq<u8>, i: int) -> u32
    decreases i,
{
    if i < 16 {
        big_endian(block[i * 4], block[i * 4 + 1], block[i * 4 + 2], block[i * 4 + 3])
    } else {
        plus(
            plus(plus(word(block, i - 16), small0(word(block, i - 15))), word(block, i - 7)),
            small1(word(block, i - 2)),
        )
    }
}

/// One round.
pub open spec fn round(s: Seq<u32>, k: u32, w: u32) -> Seq<u32> {
    let t1 = plus(plus(plus(plus(s[7], big1(s[4])), choice(s[4], s[5], s[6])), k), w);
    let t2 = plus(big0(s[0]), majority(s[0], s[1], s[2]));
    seq![plus(t1, t2), s[0], s[1], s[2], plus(s[3], t1), s[4], s[5], s[6]]
}

/// The first `n` rounds of a block.
pub open spec fn rounds(s: Seq<u32>, block: Seq<u8>, n: int) -> Seq<u32>
    decreases n,
{
    if n <= 0 {
        s
    } else {
        round(rounds(s, block, n - 1), K32[n - 1], word(block, n - 1))
    }
}

/// The state after a block.
pub open spec fn compressed(s: Seq<u32>, block: Seq<u8>) -> Seq<u32> {
    let r = rounds(s, block, 64);
    Seq::new(8, |i: int| plus(s[i], r[i]))
}

/// The state after the first `n` blocks of a message.
pub open spec fn after(m: Seq<u8>, n: int) -> Seq<u32>
    decreases n,
{
    if n <= 0 {
        H0@
    } else {
        compressed(after(m, n - 1), m.subrange(64 * (n - 1), 64 * n))
    }
}

// ----------------------------------------------------------------------------- the digest

/// The bytes of a number, the most significant first.
pub open spec fn be32(x: u32) -> Seq<u8> {
    seq![
        (x / 0x100_0000) as u8,
        (x / 0x1_0000 % 0x100) as u8,
        (x / 0x100 % 0x100) as u8,
        (x % 0x100) as u8,
    ]
}

/// The length of a message in bits, in eight bytes, the most significant first.
#[verifier::opaque]
pub open spec fn bit_length(n: int) -> Seq<u8> {
    let bits = n * 8 % 0x1_0000_0000_0000_0000;
    be32((bits / 0x1_0000_0000) as u32) + be32((bits % 0x1_0000_0000) as u32)
}

/// How many zero bytes go before the length.
pub open spec fn filling(n: int) -> int {
    (119 - n % 64) % 64
}

/// A message with its padding: whole blocks.
pub open spec fn padded(m: Seq<u8>) -> Seq<u8> {
    m.push(0x80) + Seq::new(filling(m.len() as int) as nat, |i: int| 0u8) + bit_length(
        m.len() as int,
    )
}

/// The bytes of the first `n` words of a state.
pub open spec fn words_be(s: Seq<u32>, n: int) -> Seq<u8>
    decreases n,
{
    if n <= 0 {
        seq![]
    } else {
        words_be(s, n - 1) + be32(s[n - 1])
    }
}

/// The SHA-256 digest of a message.
pub open spec fn digest(m: Seq<u8>) -> Seq<u8> {
    words_be(after(padded(m), padded(m).len() as int / 64), 8)
}

/// The digest of a message in base64.
pub open spec fn digest_text(m: Seq<u8>) -> Seq<char> {
    latin(encoded(digest(m)))
}

/// A padded message is made of whole blocks.
pub proof fn lemma_padded_len(m: Seq<u8>)
    ensures
        padded(m).len() % 64 == 0,
        padded(m).len() > m.len() + 8,
        padded(m).len() <= m.len() + 72,
{
    lemma_bit_length(m.len() as int);
    let n = m.len() as int;
    let r = n % 64;
    let f = (119 - r) % 64;
    assert(0 <= r < 64);
    assert(f == (if r <= 55 { 55 - r } else { 119 - r }));
    assert(padded(m).len() == n + 1 + f + 8);
}

proof fn lemma_bit_length(n: int)
    ensures
        bit_length(n).len() == 8,
{
    reveal(bit_length);
}

/// One byte more, counted modulo two to the sixty-fourth.
proof fn lemma_count(n: int, t: int)
    requires
        n >= 0,
        t == n % 0x1_0000_0000_0000_0000,
    ensures
        (n + 1) % 0x1_0000_0000_0000_0000 == (if t + 1 == 0x1_0000_0000_0000_0000 {
            0
        } else {
            t + 1
        }),
{
}

/// The zero bytes end where eight bytes are left in the block.
proof fn lemma_filling(n: int, z: int)
    requires
        n >= 0,
        0 <= z <= filling(n),
    ensures
        ((n + 1 + z) % 64 == 56) == (z == filling(n)),
{
    let r = n % 64;
    let f = filling(n);
    assert(f == (if r <= 55 { 55 - r } else { 119 - r }));
    assert(n == 64 * (n / 64) + r);
    let t = r + 1 + z;
    assert(n + 1 + z == 64 * (n / 64) + t);
    assert((n + 1 + z) % 64 == t % 64);
    assert(0 <= t <= 120);
    assert(t % 64 == (if t < 64 { t } else { t - 64 }));
}

/// One byte more, counted in blocks.
proof fn lemma_blocks(n: int)
    requires
        n >= 0,
    ensures
        (n + 1) % 64 == (if n % 64 == 63 { 0 } else { n % 64 + 1 }),
        (n + 1) / 64 == (if n % 64 == 63 { n / 64 + 1 } else { n / 64 }),
        n == 64 * (n / 64) + n % 64,
{
}

/// A digest has thirty-two bytes.
pub proof fn lemma_digest_len(m: Seq<u8>)
    ensures
        digest(m).len() == 32,
{
    lemma_words_len(after(padded(m), padded(m).len() as int / 64), 8);
}

proof fn lemma_words_len(s: Seq<u32>, n: int)
    requires
        n >= 0,
    ensures
        words_be(s, n).len() == 4 * n,
    decreases n,
{
    if n > 0 {
        lemma_words_len(s, n - 1);
    }
}

/// The state after some blocks does not depend on what follows them.
proof fn lemma_after_prefix(m: Seq<u8>, b: u8, n: int)
    requires
        64 * n <= m.len(),
    ensures
        after(m.push(b), n) == after(m, n),
    decreases n,
{
    if n > 0 {
        lemma_after_prefix(m, b, n - 1);
        assert(m.push(b).subrange(64 * (n - 1), 64 * n) =~= m.subrange(64 * (n - 1), 64 * n));
    }
}

fn rotate(x: u32, n: u32) -> (r: u32)
    requires
        0 < n < 32,
    ensures
        r == rotr(x, n),
{
    (x >> n) | (x << (32 - n))
}

fn wrap(a: u32, b: u32) -> (r: u32)
    ensures
        r == plus(a, b),
{
    a.wrapping_add(b)
}

fn schedule(block: &[u8; 64]) -> (w: [u32; 64])
    ensures
        forall|i: int| 0 <= i < 64 ==> #[trigger] w@[i] == word(block@, i),
{
    let mut w: [u32; 64] = [0u32; 64];
    let mut i: usize = 0;
    while i < 16
        invariant
            i <= 16,
            forall|j: int| 0 <= j < i ==> #[trigger] w@[j] == word(block@, j),
        decreases 16 - i,
    {
        let (a, b, c, d): (u8, u8, u8, u8) = (
            block[i * 4],
            block[i * 4 + 1],
            block[i * 4 + 2],
            block[i * 4 + 3],
        );
        w[i] = a as u32 * 0x100_0000 + b as u32 * 0x1_0000 + c as u32 * 0x100 + d as u32;
        i += 1;
    }
    while i < 64
        invariant
            16 <= i <= 64,
            forall|j: int| 0 <= j < i ==> #[trigger] w@[j] == word(block@, j),
        decreases 64 - i,
    {
        let x: u32 = w[i - 15];
        let y: u32 = w[i - 2];
        let s0: u32 = rotate(x, 7) ^ rotate(x, 18) ^ (x >> 3u32);
        let s1: u32 = rotate(y, 17) ^ rotate(y, 19) ^ (y >> 10u32);
        w[i] = wrap(wrap(wrap(w[i - 16], s0), w[i - 7]), s1);
        i += 1;
    }
    w
}

fn soft_block(state: &mut [u32; 8], block: &[u8; 64])
    ensures
        final(state)@ == compressed(old(state)@, block@),
{
    let w = schedule(block);
    let (mut a, mut b, mut c, mut d, mut e, mut f, mut g, mut h): (
        u32,
        u32,
        u32,
        u32,
        u32,
        u32,
        u32,
        u32,
    ) = (state[0], state[1], state[2], state[3], state[4], state[5], state[6], state[7]);
    let ghost start = state@;
    assert(seq![a, b, c, d, e, f, g, h] =~= start);
    let mut i: usize = 0;
    while i < 64
        invariant
            i <= 64,
            forall|j: int| 0 <= j < 64 ==> #[trigger] w@[j] == word(block@, j),
            seq![a, b, c, d, e, f, g, h] == rounds(start, block@, i as int),
        decreases 64 - i,
    {
        let ghost s = rounds(start, block@, i as int);
        assert(s[0] == a && s[1] == b && s[2] == c && s[3] == d);
        assert(s[4] == e && s[5] == f && s[6] == g && s[7] == h);
        let s1: u32 = rotate(e, 6) ^ rotate(e, 11) ^ rotate(e, 25);
        let ch: u32 = (e & f) ^ (!e & g);
        let t1: u32 = wrap(wrap(wrap(wrap(h, s1), ch), K32[i]), w[i]);
        let s0: u32 = rotate(a, 2) ^ rotate(a, 13) ^ rotate(a, 22);
        let maj: u32 = (a & b) ^ (a & c) ^ (b & c);
        let t2: u32 = wrap(s0, maj);
        h = g;
        g = f;
        f = e;
        e = wrap(d, t1);
        d = c;
        c = b;
        b = a;
        a = wrap(t1, t2);
        i += 1;
        assert(seq![a, b, c, d, e, f, g, h] =~= round(s, K32[i - 1], word(block@, i - 1)));
    }
    let ghost r = rounds(start, block@, 64);
    assert(r == seq![a, b, c, d, e, f, g, h]);
    assert(r[0] == a && r[1] == b && r[2] == c && r[3] == d);
    assert(r[4] == e && r[5] == f && r[6] == g && r[7] == h);
    state[0] = wrap(state[0], a);
    state[1] = wrap(state[1], b);
    state[2] = wrap(state[2], c);
    state[3] = wrap(state[3], d);
    state[4] = wrap(state[4], e);
    state[5] = wrap(state[5], f);
    state[6] = wrap(state[6], g);
    state[7] = wrap(state[7], h);
    assert(state@ =~= compressed(start, block@));
}

/// A digest in the making. Its view is the message so far.
pub struct Sha256 {
    h: [u32; 8],
    buf: [u8; 64],
    buflen: usize,
    total: u64,
    message: Ghost<Seq<u8>>,
}

impl View for Sha256 {
    type V = Seq<u8>;

    closed spec fn view(&self) -> Seq<u8> {
        self.message@
    }
}

impl Default for Sha256 {
    fn default() -> (r: Self)
        ensures
            r.wf(),
            r@ == Seq::<u8>::empty(),
    {
        Sha256::new()
    }
}

impl Sha256 {
    /// The state is that of the whole blocks so far, and the rest is in the buffer.
    pub closed spec fn wf(&self) -> bool {
        let m = self.message@;
        &&& self.buflen < 64
        &&& self.buflen == m.len() % 64
        &&& self.total as int == m.len() % 0x1_0000_0000_0000_0000
        &&& self.h@ == after(m, m.len() as int / 64)
        &&& forall|i: int|
            0 <= i < self.buflen ==> #[trigger] self.buf@[i] == m[m.len() - self.buflen + i]
    }

    /// The digest of the empty message.
    pub fn new() -> (r: Self)
        ensures
            r.wf(),
            r@ == Seq::<u8>::empty(),
    {
        Sha256 { h: H0, buf: [0u8; 64], buflen: 0, total: 0, message: Ghost(Seq::empty()) }
    }

    fn push(&mut self, b: u8)
        requires
            old(self).wf(),
        ensures
            final(self).wf(),
            final(self)@ == old(self)@.push(b),
    {
        let ghost m = self.message@;
        let ghost n = m.len() as int / 64;
        let at: usize = self.buflen;
        self.buf[at] = b;
        self.buflen = at + 1;
        self.total = self.total.wrapping_add(1);
        self.message = Ghost(m.push(b));
        proof {
            lemma_after_prefix(m, b, n);
            lemma_count(m.len() as int, old(self).total as int);
            lemma_blocks(m.len() as int);
        }
        if self.buflen == 64 {
            proof {
                assert(m.push(b).len() == 64 * (n + 1));
                assert(self.buf@ =~= m.push(b).subrange(64 * n, 64 * (n + 1)));
            }
            soft_block(&mut self.h, &self.buf);
            self.buflen = 0;
        }
    }

    /// Appends bytes to the message.
    pub fn update(&mut self, data: &[u8])
        requires
            old(self).wf(),
        ensures
            final(self).wf(),
            final(self)@ == old(self)@ + data@,
    {
        let mut i: usize = 0;
        assert(old(self)@ + data@.take(0) =~= old(self)@);
        while i < data.len()
            invariant
                i <= data@.len(),
                self.wf(),
                self@ == old(self)@ + data@.take(i as int),
            decreases data@.len() - i,
        {
            self.push(data[i]);
            i += 1;
            assert(self@ =~= old(self)@ + data@.take(i as int));
        }
        assert(data@.take(i as int) =~= data@);
    }

    /// The digest of the message.
    pub fn finalize(self) -> (r: [u8; 32])
        requires
            self.wf(),
        ensures
            r@ == digest(self@),
    {
        let mut s = self;
        let ghost m = s@;
        let bits: u64 = s.total.wrapping_mul(8);
        proof {
            let n = m.len() as int;
            let big = 0x1_0000_0000_0000_0000int;
            vstd::arithmetic::div_mod::lemma_mul_mod_noop_left(n, 8, big);
        }
        s.push(0x80);
        let ghost f = filling(m.len() as int);
        let ghost mut z: int = 0;
        assert(s@ =~= m.push(0x80) + Seq::new(0, |i: int| 0u8));
        while s.buflen != 56
            invariant
                s.wf(),
                0 <= z <= f,
                f == filling(m.len() as int),
                s@ == m.push(0x80) + Seq::new(z as nat, |i: int| 0u8),
            decreases f - z,
        {
            proof {
                lemma_filling(m.len() as int, z);
            }
            s.push(0);
            proof {
                z = z + 1;
                assert(s@ =~= m.push(0x80) + Seq::new(z as nat, |i: int| 0u8));
            }
        }
        proof {
            lemma_filling(m.len() as int, z);
        }
        let high: u32 = (bits / 0x1_0000_0000) as u32;
        let low: u32 = (bits % 0x1_0000_0000) as u32;
        s.push_word(high);
        s.push_word(low);
        proof {
            reveal(bit_length);
            assert(bit_length(m.len() as int) == be32(high) + be32(low));
            assert(s@ =~= padded(m));
            lemma_padded_len(m);
        }
        let mut out: [u8; 32] = [0u8; 32];
        let mut i: usize = 0;
        while i < 8
            invariant
                i <= 8,
                out@.take(i * 4) == words_be(s.h@, i as int),
            decreases 8 - i,
        {
            let x: u32 = s.h[i];
            let ghost was = out@.take(i * 4);
            out[i * 4] = (x / 0x100_0000) as u8;
            out[i * 4 + 1] = (x / 0x1_0000 % 0x100) as u8;
            out[i * 4 + 2] = (x / 0x100 % 0x100) as u8;
            out[i * 4 + 3] = (x % 0x100) as u8;
            assert(out@.take(i * 4 + 4) =~= was + be32(x));
            i += 1;
        }
        assert(out@.take(32) =~= out@);
        out
    }

    fn push_word(&mut self, x: u32)
        requires
            old(self).wf(),
        ensures
            final(self).wf(),
            final(self)@ == old(self)@ + be32(x),
    {
        self.push((x / 0x100_0000) as u8);
        self.push((x / 0x1_0000 % 0x100) as u8);
        self.push((x / 0x100 % 0x100) as u8);
        self.push((x % 0x100) as u8);
        assert(self@ =~= old(self)@ + be32(x));
    }
}

/// The digest of some bytes.
pub fn sha256(data: &[u8]) -> (r: [u8; 32])
    ensures
        r@ == digest(data@),
{
    let mut s = Sha256::new();
    s.update(data);
    assert(s@ =~= data@);
    s.finalize()
}

/// The digest of some bytes in base64.
pub fn sha256_b64(data: &[u8]) -> (r: String)
    ensures
        r@ == digest_text(data@),
        encode_utf8(r@) == encoded(digest(data@)),
{
    let d = sha256(data);
    let mut v: Vec<u8> = Vec::new();
    let mut i: usize = 0;
    while i < 32
        invariant
            i <= 32,
            v@ == d@.take(i as int),
        decreases 32 - i,
    {
        v.push(d[i]);
        i += 1;
        assert(v@ =~= d@.take(i as int));
    }
    assert(v@ =~= d@);
    encode_string(v.as_slice())
}

fn copy44(b: &[u8], out: &mut [u8; 44])
    requires
        b@.len() == 44,
    ensures
        final(out)@ == b@,
{
    let mut i: usize = 0;
    while i < 44
        invariant
            i <= 44,
            b@.len() == 44,
            out@.take(i as int) == b@.take(i as int),
        decreases 44 - i,
    {
        out[i] = b[i];
        i += 1;
        assert(out@.take(i as int) =~= b@.take(i as int));
    }
    assert(out@.take(44) =~= out@);
    assert(b@.take(44) =~= b@);
}

/// Writes the digest of some bytes in base64.
pub fn sha256_b64_into(data: &[u8], out: &mut [u8; 44])
    ensures
        final(out)@ == encoded(digest(data@)),
{
    let s = sha256_b64(data);
    proof {
        lemma_digest_len(data@);
        crate::b64::lemma_encoded_len(digest(data@));
    }
    copy44(s.as_str().as_bytes(), out);
}

} // verus!
