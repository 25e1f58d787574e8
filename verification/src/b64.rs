//! Base64, with both alphabets on the way in and the standard one on the way out.
use vstd::prelude::*;

use crate::text::ascii_string;
#[allow(unused_imports)]
use crate::text::latin;
use vstd::utf8::encode_utf8;

verus! {

/// The letter for a number below 64.
pub open spec fn letter(v: int) -> u8 {
    if v < 26 {
        (0x41 + v) as u8
    } else if v < 52 {
        (0x61 + v - 26) as u8
    } else if v < 62 {
        (0x30 + v - 52) as u8
    } else if v == 62 {
        0x2b
    } else {
        0x2f
    }
}

/// The number that a letter stands for, in either alphabet; 255 for none.
pub open spec fn value(c: u8) -> u8 {
    if 0x41 <= c <= 0x5a {
        (c - 0x41) as u8
    } else if 0x61 <= c <= 0x7a {
        (c - 0x61 + 26) as u8
    } else if 0x30 <= c <= 0x39 {
        (c - 0x30 + 52) as u8
    } else if c == 0x2b || c == 0x2d {
        62
    } else if c == 0x2f || c == 0x5f {
        63
    } else {
        255
    }
}

/// Padding and white space, which decoding passes over.
pub open spec fn passed_over(c: u8) -> bool {
    c == 0x3d || c == 0x0a || c == 0x0d || c == 0x20 || c == 0x09
}

/// Every byte is a letter or passed over.
pub open spec fn well_formed(s: Seq<u8>) -> bool {
    forall|i: int| 0 <= i < s.len() ==> passed_over(#[trigger] s[i]) || value(s[i]) != 255
}

/// The numbers of the letters, up to the first byte that is out of place.
pub open spec fn sextets(s: Seq<u8>) -> Seq<u8>
    decreases s.len(),
{
    if s.len() == 0 {
        seq![]
    } else if passed_over(s[0]) {
        sextets(s.skip(1))
    } else if value(s[0]) == 255 {
        seq![]
    } else {
        seq![value(s[0])] + sextets(s.skip(1))
    }
}

/// The bytes that a row of six bit numbers holds; bits that fill no byte are dropped.
pub open spec fn octets(v: Seq<u8>) -> Seq<u8>
    decreases v.len(),
{
    if v.len() < 2 {
        seq![]
    } else if v.len() == 2 {
        seq![(v[0] * 4 + v[1] / 16) as u8]
    } else if v.len() == 3 {
        seq![(v[0] * 4 + v[1] / 16) as u8, (v[1] % 16 * 16 + v[2] / 4) as u8]
    } else {
        seq![
            (v[0] * 4 + v[1] / 16) as u8,
            (v[1] % 16 * 16 + v[2] / 4) as u8,
            (v[2] % 4 * 64 + v[3]) as u8,
        ] + octets(v.skip(4))
    }
}

/// What a text decodes to.
pub open spec fn decoded(s: Seq<u8>) -> Option<Seq<u8>> {
    if well_formed(s) {
        Some(octets(sextets(s)))
    } else {
        None
    }
}

/// The length of an encoding.
pub open spec fn encoded_size(n: int) -> int {
    (n + 2) / 3 * 4
}

/// The encoding of some bytes, padded to whole groups.
pub open spec fn encoded(s: Seq<u8>) -> Seq<u8>
    decreases s.len(),
{
    if s.len() == 0 {
        seq![]
    } else if s.len() == 1 {
        seq![letter(s[0] as int / 4), letter(s[0] as int % 4 * 16), 0x3d, 0x3d]
    } else if s.len() == 2 {
        seq![
            letter(s[0] as int / 4),
            letter(s[0] as int % 4 * 16 + s[1] as int / 16),
            letter(s[1] as int % 16 * 4),
            0x3d,
        ]
    } else {
        seq![
            letter(s[0] as int / 4),
            letter(s[0] as int % 4 * 16 + s[1] as int / 16),
            letter(s[1] as int % 16 * 4 + s[2] as int / 64),
            letter(s[2] as int % 64),
        ] + encoded(s.skip(3))
    }
}

/// Sextets are below 64.
proof fn lemma_sextets_small(s: Seq<u8>)
    ensures
        forall|i: int| 0 <= i < sextets(s).len() ==> #[trigger] sextets(s)[i] < 64,
        sextets(s).len() <= s.len(),
    decreases s.len(),
{
    if s.len() > 0 {
        lemma_sextets_small(s.skip(1));
    }
}

/// How many bytes a row of sextets holds.
proof fn lemma_octets_len(v: Seq<u8>)
    ensures
        octets(v).len() == v.len() * 3 / 4,
    decreases v.len(),
{
    if v.len() >= 4 {
        lemma_octets_len(v.skip(4));
    }
}

/// What one more sextet adds to the bytes.
proof fn lemma_octets_push(v: Seq<u8>, x: u8)
    ensures
        octets(v.push(x)) == (if v.len() % 4 == 0 {
            octets(v)
        } else if v.len() % 4 == 1 {
            octets(v).push((v.last() * 4 + x / 16) as u8)
        } else if v.len() % 4 == 2 {
            octets(v).push((v.last() % 16 * 16 + x / 4) as u8)
        } else {
            octets(v).push((v.last() % 4 * 64 + x) as u8)
        }),
    decreases v.len(),
{
    if v.len() >= 4 {
        lemma_octets_push(v.skip(4), x);
        assert(v.push(x).skip(4) =~= v.skip(4).push(x));
        if v.len() == 4 {
            assert(v.skip(4) =~= seq![]);
        }
        assert(octets(v.push(x)) =~= seq![
            (v[0] * 4 + v[1] / 16) as u8,
            (v[1] % 16 * 16 + v[2] / 4) as u8,
            (v[2] % 4 * 64 + v[3]) as u8,
        ] + octets(v.skip(4).push(x)));
        if v.len() > 4 {
            assert(v.skip(4).last() == v.last());
        }
    } else {
        reveal_with_fuel(octets, 2);
        if v.len() == 3 {
            assert(v.push(x).skip(4) =~= seq![]);
        }
    }
}

/// Letters and numbers undo each other.
proof fn lemma_letter(v: int)
    requires
        0 <= v < 64,
    ensures
        value(letter(v)) == v,
        !passed_over(letter(v)),
{
}

/// The sextets of a group of four letters and of what follows.
proof fn lemma_group(a: int, b: int, c: int, d: int, rest: Seq<u8>)
    requires
        0 <= a < 64,
        0 <= b < 64,
        0 <= c < 64,
        0 <= d < 64,
    ensures
        sextets(seq![letter(a), letter(b), letter(c), letter(d)] + rest) == seq![
            a as u8,
            b as u8,
            c as u8,
            d as u8,
        ] + sextets(rest),
{
    let s = seq![letter(a), letter(b), letter(c), letter(d)] + rest;
    lemma_letter(a);
    lemma_letter(b);
    lemma_letter(c);
    lemma_letter(d);
    assert(s.skip(1).skip(1) =~= s.skip(2));
    assert(s.skip(2).skip(1) =~= s.skip(3));
    assert(s.skip(3).skip(1) =~= rest);
    assert(sextets(s.skip(3)) =~= seq![d as u8] + sextets(rest));
    assert(sextets(s.skip(2)) =~= seq![c as u8, d as u8] + sextets(rest));
    assert(sextets(s.skip(1)) =~= seq![b as u8, c as u8, d as u8] + sextets(rest));
    assert(sextets(s) =~= seq![a as u8, b as u8, c as u8, d as u8] + sextets(rest));
}

/// Decoding an encoding gives the bytes back.
pub proof fn lemma_round_trip(s: Seq<u8>)
    ensures
        decoded(encoded(s)) == Some(s),
    decreases s.len(),
{
    let e = encoded(s);
    if s.len() == 0 {
        assert(octets(sextets(e)) =~= s);
    } else if s.len() == 1 {
        let (a, b) = (s[0] as int / 4, s[0] as int % 4 * 16);
        lemma_letter(a);
        lemma_letter(b);
        assert(e.skip(1).skip(1) =~= e.skip(2));
        assert(e.skip(2).skip(1) =~= e.skip(3));
        assert(e.skip(3).skip(1) =~= seq![]);
        assert(sextets(e.skip(3).skip(1)) =~= seq![]);
        assert(sextets(e.skip(3)) =~= seq![]);
        assert(sextets(e.skip(2)) =~= seq![]);
        assert(sextets(e.skip(1)) =~= seq![b as u8]);
        assert(sextets(e) =~= seq![a as u8, b as u8]);
        assert(octets(sextets(e)) =~= s);
    } else if s.len() == 2 {
        let (a, b, c) = (
            s[0] as int / 4,
            s[0] as int % 4 * 16 + s[1] as int / 16,
            s[1] as int % 16 * 4,
        );
        lemma_letter(a);
        lemma_letter(b);
        lemma_letter(c);
        assert(e.skip(1).skip(1) =~= e.skip(2));
        assert(e.skip(2).skip(1) =~= e.skip(3));
        assert(e.skip(3).skip(1) =~= seq![]);
        assert(sextets(e.skip(3).skip(1)) =~= seq![]);
        assert(sextets(e.skip(3)) =~= seq![]);
        assert(sextets(e.skip(2)) =~= seq![c as u8]);
        assert(sextets(e.skip(1)) =~= seq![b as u8, c as u8]);
        assert(sextets(e) =~= seq![a as u8, b as u8, c as u8]);
        assert(octets(sextets(e)) =~= s);
    } else {
        let rest = encoded(s.skip(3));
        lemma_round_trip(s.skip(3));
        let (a, b, c, d) = (
            s[0] as int / 4,
            s[0] as int % 4 * 16 + s[1] as int / 16,
            s[1] as int % 16 * 4 + s[2] as int / 64,
            s[2] as int % 64,
        );
        lemma_letter(a);
        lemma_letter(b);
        lemma_letter(c);
        lemma_letter(d);
        lemma_group(a, b, c, d, rest);
        let v = sextets(e);
        assert(v.skip(4) =~= sextets(rest));
        assert(octets(v) =~= seq![s[0], s[1], s[2]] + octets(sextets(rest)));
        assert(octets(v) =~= s);
        assert forall|i: int| 0 <= i < e.len() implies passed_over(#[trigger] e[i]) || value(e[i])
            != 255 by {
            if i >= 4 {
                assert(e[i] == rest[i - 4]);
            }
        }
    }
}

fn number_of(c: u8) -> (r: u8)
    ensures
        r == value(c),
{
    if 0x41 <= c && c <= 0x5a {
        c - 0x41
    } else if 0x61 <= c && c <= 0x7a {
        c - 0x61 + 26
    } else if 0x30 <= c && c <= 0x39 {
        c - 0x30 + 52
    } else if c == 0x2b || c == 0x2d {
        62
    } else if c == 0x2f || c == 0x5f {
        63
    } else {
        255
    }
}

fn letter_of(v: u8) -> (r: u8)
    requires
        v < 64,
    ensures
        r == letter(v as int),
{
    if v < 26 {
        0x41 + v
    } else if v < 52 {
        0x61 + (v - 26)
    } else if v < 62 {
        0x30 + (v - 52)
    } else if v == 62 {
        0x2b
    } else {
        0x2f
    }
}

/// All are below 64.
spec fn small(v: Seq<u8>) -> bool {
    forall|k: int| 0 <= k < v.len() ==> #[trigger] v[k] < 64
}

/// The bits of the last sextet that no byte holds yet.
spec fn pending(v: Seq<u8>) -> u8 {
    if v.len() % 4 == 0 {
        0
    } else if v.len() % 4 == 1 {
        v.last()
    } else if v.len() % 4 == 2 {
        v.last() % 16
    } else {
        v.last() % 4
    }
}

/// The byte that the pending bits and a sextet make.
spec fn made(phase: int, acc: u8, v: u8) -> u8 {
    if phase == 1 {
        (acc * 4 + v / 16) as u8
    } else if phase == 2 {
        (acc * 16 + v / 4) as u8
    } else {
        (acc * 64 + v) as u8
    }
}

fn joined(phase: u8, acc: u8, v: u8) -> (r: (u8, u8))
    requires
        v < 64,
        phase < 4,
        phase == 1 ==> acc < 64,
        phase == 2 ==> acc < 16,
        phase == 3 ==> acc < 4,
    ensures
        phase > 0 ==> r.0 == made(phase as int, acc, v),
        r.1 == (if phase == 0 {
            v
        } else if phase == 1 {
            v % 16
        } else if phase == 2 {
            v % 4
        } else {
            0
        }),
{
    if phase == 0 {
        (0, v)
    } else if phase == 1 {
        (acc * 4 + v / 16, v % 16)
    } else if phase == 2 {
        (acc * 16 + v / 4, v % 4)
    } else {
        (acc * 64 + v, 0)
    }
}

/// One more sextet: the bytes, and what is pending behind them.
proof fn lemma_step(seen: Seq<u8>, v: u8)
    requires
        small(seen),
        v < 64,
    ensures
        small(seen.push(v)),
        octets(seen.push(v)) == (if seen.len() % 4 == 0 {
            octets(seen)
        } else {
            octets(seen).push(made(seen.len() as int % 4, pending(seen), v))
        }),
        pending(seen.push(v)) == (if seen.len() % 4 == 0 {
            v
        } else if seen.len() % 4 == 1 {
            v % 16
        } else if seen.len() % 4 == 2 {
            v % 4
        } else {
            0
        }),
        seen.len() % 4 == 1 ==> pending(seen) < 64,
        seen.len() % 4 == 2 ==> pending(seen) < 16,
        seen.len() % 4 == 3 ==> pending(seen) < 4,
{
    lemma_octets_push(seen, v);
}

/// `out` holds the first bytes of `d`, as many as fit, and behind them what it held
/// before.
pub open spec fn filled(before: Seq<u8>, after: Seq<u8>, d: Seq<u8>) -> bool {
    let n = if d.len() < before.len() { d.len() as int } else { before.len() as int };
    after == d.take(n) + before.skip(n)
}

/// Decodes into a buffer and returns how many bytes were written.
///
/// Fails on a byte that is neither a letter nor passed over, and on a buffer that is
/// too short; what was decoded until then is in the buffer.
pub fn decode_slice(src: &[u8], out: &mut [u8]) -> (r: Option<usize>)
    ensures
        filled(old(out)@, final(out)@, octets(sextets(src@))),
        match decoded(src@) {
            Some(d) => if d.len() <= old(out)@.len() {
                r matches Some(n) && n == d.len()
            } else {
                r is None
            },
            None => r is None,
        },
{
    let ghost all = octets(sextets(src@));
    let ghost mut seen: Seq<u8> = seq![];
    let mut acc: u8 = 0;
    let mut phase: u8 = 0;
    let mut w: usize = 0;
    let mut i: usize = 0;
    proof {
        assert(src@.skip(0) =~= src@);
        assert(seen + sextets(src@) =~= sextets(src@));
        assert(octets(seen) =~= seq![]);
        assert(octets(seen) + old(out)@.skip(0) =~= old(out)@);
    }
    while i < src.len()
        invariant
            i <= src@.len(),
            all == octets(sextets(src@)),
            sextets(src@) == seen + sextets(src@.skip(i as int)),
            well_formed(src@.take(i as int)),
            small(seen),
            phase == seen.len() % 4,
            acc == pending(seen),
            w == octets(seen).len(),
            w <= old(out)@.len(),
            out@ == octets(seen) + old(out)@.skip(w as int),
        decreases src@.len() - i,
    {
        let c: u8 = src[i];
        let ghost s = src@.skip(i as int);
        proof {
            assert(s[0] == c);
            assert(s.skip(1) =~= src@.skip(i + 1));
        }
        if c == 0x3d || c == 0x0a || c == 0x0d || c == 0x20 || c == 0x09 {
            proof {
                lemma_well_formed_next(src@, i as int);
            }
            i += 1;
            continue ;
        }
        let v: u8 = number_of(c);
        if v == 255 {
            proof {
                lemma_stop(src@, i as int, seen);
                assert(all.take(w as int) =~= all);
            }
            return None;
        }
        proof {
            lemma_well_formed_next(src@, i as int);
            lemma_step(seen, v);
            lemma_prefix(seen.push(v), sextets(s.skip(1)));
            assert(seen + sextets(s) =~= seen.push(v) + sextets(s.skip(1)));
        }
        let (b, keep) = joined(phase, acc, v);
        if phase > 0 {
            if w >= out.len() {
                proof {
                    assert(octets(seen.push(v)).take(w as int) =~= octets(seen));
                    assert(all.take(octets(seen.push(v)).len() as int).take(w as int) =~= all.take(
                        w as int,
                    ));
                }
                return None;
            }
            out[w] = b;
            w += 1;
        }
        proof {
            assert(out@ =~= octets(seen.push(v)) + old(out)@.skip(w as int));
            seen = seen.push(v);
        }
        phase = if phase == 3 {
            0
        } else {
            phase + 1
        };
        acc = keep;
        i += 1;
    }
    proof {
        assert(src@.skip(i as int) =~= seq![]);
        assert(src@.take(i as int) =~= src@);
        assert(seen + sextets(src@.skip(i as int)) =~= seen);
        assert(all.take(w as int) =~= all);
    }
    Some(w)
}

/// One more byte that is in place.
proof fn lemma_well_formed_next(s: Seq<u8>, i: int)
    requires
        0 <= i < s.len(),
        well_formed(s.take(i)),
        passed_over(s[i]) || value(s[i]) != 255,
    ensures
        well_formed(s.take(i + 1)),
{
    let t = s.take(i + 1);
    assert forall|k: int| 0 <= k < t.len() implies passed_over(#[trigger] t[k]) || value(t[k])
        != 255 by {
        if k < i {
            assert(t[k] == s.take(i)[k]);
        }
    }
}

/// The first byte that is out of place.
proof fn lemma_stop(s: Seq<u8>, i: int, seen: Seq<u8>)
    requires
        0 <= i < s.len(),
        !passed_over(s[i]),
        value(s[i]) == 255,
        sextets(s) == seen + sextets(s.skip(i)),
    ensures
        !well_formed(s),
        sextets(s) == seen,
{
    assert(s.skip(i)[0] == s[i]);
    assert(sextets(s.skip(i)) =~= seq![]);
    assert(seen + sextets(s.skip(i)) =~= seen);
    assert(!(passed_over(s[i]) || value(s[i]) != 255));
}

/// The bytes of the first sextets are the first bytes.
proof fn lemma_prefix(v: Seq<u8>, more: Seq<u8>)
    ensures
        octets(v).len() <= octets(v + more).len(),
        octets(v + more).take(octets(v).len() as int) == octets(v),
    decreases more.len(),
{
    if more.len() == 0 {
        assert(v + more =~= v);
    } else {
        lemma_octets_push(v, more[0]);
        lemma_prefix(v.push(more[0]), more.skip(1));
        assert(v.push(more[0]) + more.skip(1) =~= v + more);
        let o = octets(v + more);
        let n = octets(v).len() as int;
        let m = octets(v.push(more[0])).len() as int;
        assert(o.take(m).take(n) =~= o.take(n));
        assert(octets(v.push(more[0])).take(n) =~= octets(v));
    }
}

/// Decodes a text, or returns `None` where a byte is out of place.
pub fn decode(src: &[u8]) -> (r: Option<Vec<u8>>)
    ensures
        match decoded(src@) {
            Some(d) => r matches Some(v) && v@ == d,
            None => r is None,
        },
{
    let room: usize = src.len() / 4 * 3 + 4;
    let mut out: Vec<u8> = vec![0u8; room];
    proof {
        lemma_sextets_small(src@);
        lemma_octets_len(sextets(src@));
    }
    let ghost d = octets(sextets(src@));
    let n: usize = match decode_slice(src, out.as_mut_slice()) {
        Some(n) => n,
        None => return None,
    };
    out.truncate(n);
    assert(out@ =~= d);
    Some(out)
}

/// The length of the encoding of `raw_len` bytes.
pub fn encoded_len(raw_len: usize) -> (r: usize)
    requires
        encoded_size(raw_len as int) <= usize::MAX,
    ensures
        r == encoded_size(raw_len as int),
{
    let whole: usize = raw_len / 3;
    if raw_len % 3 == 0 {
        whole * 4
    } else {
        (whole + 1) * 4
    }
}

/// How many bytes an encoding has.
pub proof fn lemma_encoded_len(s: Seq<u8>)
    ensures
        encoded(s).len() == encoded_size(s.len() as int),
    decreases s.len(),
{
    if s.len() >= 3 {
        lemma_encoded_len(s.skip(3));
    }
}

/// An encoding is ASCII.
pub proof fn lemma_encoded_ascii(s: Seq<u8>)
    ensures
        forall|i: int| 0 <= i < encoded(s).len() ==> #[trigger] encoded(s)[i] < 0x80,
    decreases s.len(),
{
    if s.len() >= 3 {
        lemma_encoded_ascii(s.skip(3));
        let rest = encoded(s.skip(3));
        assert forall|i: int| 0 <= i < encoded(s).len() implies #[trigger] encoded(s)[i] < 0x80 by {
            if i >= 4 {
                assert(encoded(s)[i] == rest[i - 4]);
            }
        }
    }
}

/// The encoding of whole groups and a rest.
proof fn lemma_encoded_group(s: Seq<u8>, i: int)
    requires
        0 <= i,
        i % 3 == 0,
        i + 3 <= s.len(),
    ensures
        encoded(s.take(i + 3)) == encoded(s.take(i)) + encoded(s.subrange(i, i + 3)),
    decreases i,
{
    let g = s.subrange(i, i + 3);
    if i == 0 {
        assert(s.take(3) =~= g);
        assert(s.take(0) =~= seq![]);
        assert(encoded(s.take(0)) =~= seq![]);
        assert(encoded(s.take(0)) + encoded(g) =~= encoded(g));
    } else {
        let t = s.skip(3);
        lemma_encoded_group(t, i - 3);
        assert(t.take(i) =~= s.take(i + 3).skip(3));
        assert(t.take(i - 3) =~= s.take(i).skip(3));
        assert(t.subrange(i - 3, i) =~= g);
        let head = seq![
            letter(s[0] as int / 4),
            letter(s[0] as int % 4 * 16 + s[1] as int / 16),
            letter(s[1] as int % 16 * 4 + s[2] as int / 64),
            letter(s[2] as int % 64),
        ];
        assert(encoded(s.take(i + 3)) =~= head + encoded(t.take(i)));
        assert(encoded(s.take(i)) =~= head + encoded(t.take(i - 3)));
        assert(head + (encoded(t.take(i - 3)) + encoded(g)) =~= (head + encoded(t.take(i - 3)))
            + encoded(g));
    }
}

/// The encoding of whole groups and one or two bytes more.
proof fn lemma_encoded_rest(s: Seq<u8>, i: int)
    requires
        0 <= i <= s.len(),
        i % 3 == 0,
    ensures
        encoded(s) == encoded(s.take(i)) + encoded(s.skip(i)),
    decreases i,
{
    if i == 0 {
        assert(s.skip(0) =~= s);
        assert(s.take(0) =~= seq![]);
        assert(encoded(s.take(0)) =~= seq![]);
        assert(encoded(s.take(0)) + encoded(s) =~= encoded(s));
    } else {
        let t = s.skip(3);
        lemma_encoded_rest(t, i - 3);
        assert(t.take(i - 3) =~= s.take(i).skip(3));
        assert(t.skip(i - 3) =~= s.skip(i));
        let head = seq![
            letter(s[0] as int / 4),
            letter(s[0] as int % 4 * 16 + s[1] as int / 16),
            letter(s[1] as int % 16 * 4 + s[2] as int / 64),
            letter(s[2] as int % 64),
        ];
        assert(encoded(s.take(i)) =~= head + encoded(t.take(i - 3)));
        assert(head + (encoded(t.take(i - 3)) + encoded(s.skip(i))) =~= (head + encoded(
            t.take(i - 3),
        )) + encoded(s.skip(i)));
    }
}

fn put4(out: &mut [u8], w: usize, a: u8, b: u8, c: u8, d: u8)
    requires
        w + 4 <= old(out)@.len(),
    ensures
        final(out)@ == old(out)@.take(w as int) + seq![a, b, c, d] + old(out)@.skip(w + 4),
{
    out[w] = a;
    out[w + 1] = b;
    out[w + 2] = c;
    out[w + 3] = d;
    assert(out@ =~= old(out)@.take(w as int) + seq![a, b, c, d] + old(out)@.skip(w + 4));
}

/// Encodes into the start of a buffer.
pub fn std_encode(src: &[u8], out: &mut [u8])
    requires
        encoded_size(src@.len() as int) <= old(out)@.len(),
    ensures
        final(out)@ == encoded(src@) + old(out)@.skip(encoded_size(src@.len() as int)),
{
    let room: usize = out.len();
    let mut w: usize = 0;
    let mut i: usize = 0;
    proof {
        lemma_encoded_len(src@);
        assert(src@.take(0) =~= seq![]);
        assert(encoded(src@.take(0)) =~= seq![]);
        assert(encoded(src@.take(0)) + old(out)@.skip(0) =~= old(out)@);
    }
    while src.len() - i >= 3
        invariant
            i <= src@.len(),
            i % 3 == 0,
            w == i / 3 * 4,
            w == encoded(src@.take(i as int)).len(),
            encoded_size(src@.len() as int) <= room,
            room == old(out)@.len(),
            out@ == encoded(src@.take(i as int)) + old(out)@.skip(w as int),
        decreases src@.len() - i,
    {
        let (x, y, z): (u8, u8, u8) = (src[i], src[i + 1], src[i + 2]);
        let ghost g = src@.subrange(i as int, i + 3);
        proof {
            lemma_encoded_group(src@, i as int);
            assert(g.skip(3) =~= seq![]);
            assert(encoded(g.skip(3)) =~= seq![]);
            assert(encoded(g) =~= seq![
                letter(x as int / 4),
                letter(x as int % 4 * 16 + y as int / 16),
                letter(y as int % 16 * 4 + z as int / 64),
                letter(z as int % 64),
            ]);
        }
        let ghost before = out@;
        put4(
            out,
            w,
            letter_of(x / 4),
            letter_of(x % 4 * 16 + y / 16),
            letter_of(y % 16 * 4 + z / 64),
            letter_of(z % 64),
        );
        w += 4;
        i += 3;
        proof {
            assert(before.take(w - 4) =~= encoded(src@.take(i - 3)));
            assert(before.skip(w as int) =~= old(out)@.skip(w as int));
            assert(out@ =~= encoded(src@.take(i as int)) + old(out)@.skip(w as int));
        }
    }
    let ghost before = out@;
    let ghost t = src@.skip(i as int);
    proof {
        lemma_encoded_rest(src@, i as int);
        assert(before.take(w as int) =~= encoded(src@.take(i as int)));
    }
    if src.len() - i == 1 {
        let x: u8 = src[i];
        put4(out, w, letter_of(x / 4), letter_of(x % 4 * 16), 0x3d, 0x3d);
        proof {
            assert(t[0] == x);
            assert(before.skip(w + 4) =~= old(out)@.skip(w + 4));
            assert(out@ =~= encoded(src@) + old(out)@.skip(w + 4));
        }
    } else if src.len() - i == 2 {
        let (x, y): (u8, u8) = (src[i], src[i + 1]);
        put4(out, w, letter_of(x / 4), letter_of(x % 4 * 16 + y / 16), letter_of(y % 16 * 4), 0x3d);
        proof {
            assert(t[0] == x && t[1] == y);
            assert(before.skip(w + 4) =~= old(out)@.skip(w + 4));
            assert(out@ =~= encoded(src@) + old(out)@.skip(w + 4));
        }
    } else {
        proof {
            assert(t =~= seq![]);
            assert(encoded(t) =~= seq![]);
            assert(encoded(src@.take(i as int)) + encoded(t) =~= encoded(src@.take(i as int)));
        }
    }
}

fn push4(out: &mut Vec<u8>, a: u8, b: u8, c: u8, d: u8)
    ensures
        final(out)@ == old(out)@ + seq![a, b, c, d],
{
    out.push(a);
    out.push(b);
    out.push(c);
    out.push(d);
    assert(out@ =~= old(out)@ + seq![a, b, c, d]);
}

/// The encoding of some bytes as a string.
pub fn encode_string(src: &[u8]) -> (r: String)
    ensures
        r@ == latin(encoded(src@)),
        encode_utf8(r@) == encoded(src@),
{
    let mut buf: Vec<u8> = Vec::new();
    let mut i: usize = 0;
    proof {
        assert(src@.take(0) =~= seq![]);
        assert(encoded(src@.take(0)) =~= seq![]);
    }
    while src.len() - i >= 3
        invariant
            i <= src@.len(),
            i % 3 == 0,
            buf@ == encoded(src@.take(i as int)),
        decreases src@.len() - i,
    {
        let (x, y, z): (u8, u8, u8) = (src[i], src[i + 1], src[i + 2]);
        proof {
            let g = src@.subrange(i as int, i + 3);
            lemma_encoded_group(src@, i as int);
            assert(g.skip(3) =~= seq![]);
            assert(encoded(g.skip(3)) =~= seq![]);
            assert(encoded(g) =~= seq![
                letter(x as int / 4),
                letter(x as int % 4 * 16 + y as int / 16),
                letter(y as int % 16 * 4 + z as int / 64),
                letter(z as int % 64),
            ]);
        }
        push4(
            &mut buf,
            letter_of(x / 4),
            letter_of(x % 4 * 16 + y / 16),
            letter_of(y % 16 * 4 + z / 64),
            letter_of(z % 64),
        );
        i += 3;
    }
    let ghost t = src@.skip(i as int);
    proof {
        lemma_encoded_rest(src@, i as int);
    }
    if src.len() - i == 1 {
        let x: u8 = src[i];
        assert(t[0] == x);
        push4(&mut buf, letter_of(x / 4), letter_of(x % 4 * 16), 0x3d, 0x3d);
    } else if src.len() - i == 2 {
        let (x, y): (u8, u8) = (src[i], src[i + 1]);
        assert(t[0] == x && t[1] == y);
        push4(
            &mut buf,
            letter_of(x / 4),
            letter_of(x % 4 * 16 + y / 16),
            letter_of(y % 16 * 4),
            0x3d,
        );
    } else {
        assert(t =~= seq![]);
        assert(encoded(t) =~= seq![]);
        assert(buf@ + encoded(t) =~= buf@);
    }
    proof {
        assert(buf@ =~= encoded(src@));
        lemma_encoded_ascii(src@);
    }
    ascii_string(buf.as_slice())
}

} // verus!
