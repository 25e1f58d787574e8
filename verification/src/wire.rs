//! The chat protocol: request bodies, and the frames of the event stream.
use vstd::prelude::*;
#[allow(unused_imports)]
use vstd::utf8::{decode_utf8, encode_utf8, valid_utf8};

#[allow(unused_imports)]
use crate::jsnum::{hex_digit, json_byte, json_bytes, unicode_escape};
#[allow(unused_imports)]
use crate::text::{bytes_at, bytes_eq, bytes_of, char_of, chars_of, group_concat, occurs_at};
#[allow(unused_imports)]
use crate::text::{find_char, lemma_next_item, next_item, push_bytes, str_eq, utf8_str};

verus! {

/// One message of a conversation.
pub struct WireMsg {
    pub role: String,
    pub text: String,
}

/// What a chat request asks for.
pub struct BodySpec<'a> {
    pub model: &'a str,
    pub reasoning: &'a str,
    pub msgs: &'a [WireMsg],
    pub window_id: [u8; 36],
}

// ------------------------------------------------------------------------- writing JSON

/// One byte inside a JSON string of a request.
pub open spec fn wire_byte(b: u8) -> Seq<u8> {
    if b == 0x22 {
        seq![0x5cu8, 0x22u8]
    } else if b == 0x5c {
        seq![0x5cu8, 0x5cu8]
    } else if b == 0x0a {
        seq![0x5cu8, 0x6eu8]
    } else if b == 0x0d {
        seq![0x5cu8, 0x72u8]
    } else if b == 0x09 {
        seq![0x5cu8, 0x74u8]
    } else if b < 0x20 {
        unicode_escape(b)
    } else {
        seq![b]
    }
}

/// A byte string inside a JSON string of a request.
pub open spec fn wire_bytes(raw: Seq<u8>) -> Seq<u8>
    decreases raw.len(),
{
    if raw.len() == 0 {
        seq![]
    } else {
        wire_bytes(raw.drop_last()) + wire_byte(raw.last())
    }
}

/// Writes a byte string as it stands inside a JSON string of a request.
pub fn json_escape_into(raw: &[u8], out: &mut Vec<u8>)
    ensures
        final(out)@ == old(out)@ + wire_bytes(raw@),
{
    let ghost start = out@;
    let mut i: usize = 0;
    assert(out@ =~= start + wire_bytes(raw@.take(0)));
    while i < raw.len()
        invariant
            i <= raw@.len(),
            out@ == start + wire_bytes(raw@.take(i as int)),
        decreases raw@.len() - i,
    {
        let b: u8 = raw[i];
        let ghost before = out@;
        if b == 0x22 {
            push_bytes(out, &[0x5c, 0x22]);
        } else if b == 0x5c {
            push_bytes(out, &[0x5c, 0x5c]);
        } else if b == 0x0a {
            push_bytes(out, &[0x5c, 0x6e]);
        } else if b == 0x0d {
            push_bytes(out, &[0x5c, 0x72]);
        } else if b == 0x09 {
            push_bytes(out, &[0x5c, 0x74]);
        } else if b < 0x20 {
            push_bytes(out, &[0x5c, 0x75, 0x30, 0x30, hex_digit(b / 16), hex_digit(b % 16)]);
        } else {
            out.push(b);
        }
        assert(out@ =~= before + wire_byte(b));
        i += 1;
        assert(raw@.take(i as int).drop_last() =~= raw@.take(i - 1));
        assert(out@ =~= start + wire_bytes(raw@.take(i as int)));
    }
    assert(raw@.take(i as int) =~= raw@);
}

fn push_text(out: &mut Vec<u8>, s: &str)
    ensures
        final(out)@ == old(out)@ + encode_utf8(s@),
{
    push_bytes(out, s.as_bytes());
}

/// What stands before the text of a message.
pub open spec fn opening(role: Seq<char>) -> Seq<u8> {
    if role == "user"@ {
        encode_utf8("{\"role\":\"user\",\"content\":[{\"type\":\"text\",\"text\":\""@)
    } else {
        encode_utf8("{\"role\":\""@) + encode_utf8(role) + encode_utf8(
            "\",\"content\":\"\",\"parts\":[{\"type\":\"text\",\"text\":\""@,
        )
    }
}

/// One message of a request.
pub open spec fn message_json(m: WireMsg, id: Seq<u8>) -> Seq<u8> {
    opening(m.role@) + wire_bytes(encode_utf8(m.text@)) + encode_utf8("\"}],\"windowID\":\""@) + id
        + encode_utf8("\"}"@)
}

/// The first `n` messages, with commas between them.
pub open spec fn message_list(msgs: Seq<WireMsg>, id: Seq<u8>, n: int) -> Seq<u8>
    decreases n,
{
    if n <= 0 || n > msgs.len() {
        seq![]
    } else if n == 1 {
        message_json(msgs[0], id)
    } else {
        message_list(msgs, id, n - 1) + encode_utf8(","@) + message_json(msgs[n - 1], id)
    }
}

/// The body of a chat request.
pub open spec fn body_json(
    model: Seq<char>,
    reasoning: Seq<char>,
    msgs: Seq<WireMsg>,
    id: Seq<u8>,
) -> Seq<u8> {
    encode_utf8("{\"model\":\""@) + encode_utf8(model) + encode_utf8(
        "\",\"metadata\":{\"toolChoice\":{\"NewsSearch\":false,\"VideosSearch\":false,\"LocalSearch\":false,\"WeatherForecast\":false}},\"messages\":["@,
    ) + message_list(msgs, id, msgs.len() as int) + encode_utf8(
        "],\"canUseTools\":true,\"reasoningEffort\":\""@,
    ) + encode_utf8(reasoning) + encode_utf8(
        "\",\"canUseApproxLocation\":null,\"canDelegateImageGeneration\":false,\"canUseWebSearch\":false,\"canUploadFiles\":false,\"canShowGreeting\":false}"@,
    )
}

fn push_id(out: &mut Vec<u8>, id: &[u8; 36])
    ensures
        final(out)@ == old(out)@ + id@,
{
    let mut i: usize = 0;
    assert(old(out)@ + id@.take(0) =~= old(out)@);
    while i < 36
        invariant
            i <= 36,
            out@ == old(out)@ + id@.take(i as int),
        decreases 36 - i,
    {
        out.push(id[i]);
        i += 1;
        assert(out@ =~= old(out)@ + id@.take(i as int));
    }
    assert(id@.take(36) =~= id@);
}

fn push_message(m: &WireMsg, id: &[u8; 36], j: &mut Vec<u8>)
    ensures
        final(j)@ == old(j)@ + message_json(*m, id@),
{
    broadcast use group_concat;

    if str_eq(m.role.as_str(), "user") {
        push_text(j, "{\"role\":\"user\",\"content\":[{\"type\":\"text\",\"text\":\"");
    } else {
        push_text(j, "{\"role\":\"");
        push_text(j, m.role.as_str());
        push_text(j, "\",\"content\":\"\",\"parts\":[{\"type\":\"text\",\"text\":\"");
    }
    json_escape_into(m.text.as_str().as_bytes(), j);
    push_text(j, "\"}],\"windowID\":\"");
    push_id(j, id);
    push_text(j, "\"}");
}

fn messages_json(msgs: &[WireMsg], id: &[u8; 36], j: &mut Vec<u8>)
    ensures
        final(j)@ == old(j)@ + message_list(msgs@, id@, msgs@.len() as int),
{
    let mut i: usize = 0;
    assert(old(j)@ + message_list(msgs@, id@, 0) =~= old(j)@);
    while i < msgs.len()
        invariant
            i <= msgs@.len(),
            j@ == old(j)@ + message_list(msgs@, id@, i as int),
        decreases msgs@.len() - i,
    {
        if i > 0 {
            push_text(j, ",");
        }
        push_message(&msgs[i], id, j);
        i += 1;
        proof {
            if i == 1 {
                assert(message_list(msgs@, id@, 0) =~= seq![]);
                assert(old(j)@ + message_list(msgs@, id@, 0) =~= old(j)@);
            } else {
                assert(j@ =~= old(j)@ + message_list(msgs@, id@, i as int));
            }
        }
    }
}

/// Writes the body of a chat request.
pub fn duck_body(spec: &BodySpec) -> (j: Vec<u8>)
    ensures
        j@ == body_json(spec.model@, spec.reasoning@, spec.msgs@, spec.window_id@),
{
    broadcast use group_concat;

    let mut j: Vec<u8> = Vec::new();
    push_text(&mut j, "{\"model\":\"");
    push_text(&mut j, spec.model);
    push_text(
        &mut j,
        "\",\"metadata\":{\"toolChoice\":{\"NewsSearch\":false,\"VideosSearch\":false,\"LocalSearch\":false,\"WeatherForecast\":false}},\"messages\":[",
    );
    messages_json(spec.msgs, &spec.window_id, &mut j);
    push_text(&mut j, "],\"canUseTools\":true,\"reasoningEffort\":\"");
    push_text(&mut j, spec.reasoning);
    push_text(
        &mut j,
        "\",\"canUseApproxLocation\":null,\"canDelegateImageGeneration\":false,\"canUseWebSearch\":false,\"canUploadFiles\":false,\"canShowGreeting\":false}",
    );
    assert(Seq::<u8>::empty() + encode_utf8("{\"model\":\""@) =~= encode_utf8("{\"model\":\""@));
    j
}

// ------------------------------------------------------------------------- reading JSON

/// The byte at a place, or `None` past the end.
pub open spec fn byte_at(raw: Seq<u8>, i: int) -> Option<u8> {
    if 0 <= i < raw.len() {
        Some(raw[i])
    } else {
        None
    }
}

/// The value of a hexadecimal digit; 255 for anything else.
pub open spec fn hex_value(b: Option<u8>) -> u16 {
    match b {
        Some(c) => if 0x30 <= c <= 0x39 {
            (c - 0x30) as u16
        } else if 0x61 <= c <= 0x66 {
            (c - 0x61 + 10) as u16
        } else if 0x41 <= c <= 0x46 {
            (c - 0x41 + 10) as u16
        } else {
            255
        },
        None => 255,
    }
}

/// The number with the first `n` of the hexadecimal digits from `p` on.
pub open spec fn hex_number(raw: Seq<u8>, p: int, n: int) -> u16
    decreases n,
{
    if n <= 0 {
        0
    } else {
        (hex_number(raw, p, n - 1) << 4u16) | hex_value(byte_at(raw, p + n - 1))
    }
}

/// The character of the `\u` escape at `i`, and where what follows it starts. A
/// surrogate without its other half becomes the replacement character. Behind a
/// surrogate pair four bytes are passed over.
pub open spec fn unicode_at(raw: Seq<u8>, i: int) -> (char, int) {
    let high = hex_number(raw, i + 2, 4);
    let low = hex_number(raw, i + 8, 4);
    if 0xd800 <= high <= 0xdbff {
        if byte_at(raw, i + 6) == Some(0x5cu8) && byte_at(raw, i + 7) == Some(0x75u8) && 0xdc00
            <= low <= 0xdfff {
            ((0x10000 + (high - 0xd800) * 0x400 + (low - 0xdc00)) as char, i + 16)
        } else {
            ('\u{fffd}', i + 6)
        }
    } else if 0xdc00 <= high <= 0xdfff {
        ('\u{fffd}', i + 6)
    } else {
        (high as char, i + 6)
    }
}

/// What the two character escape with this letter stands for. An unknown letter is
/// dropped and its backslash stays.
pub open spec fn short_escape(b: Option<u8>) -> u8 {
    match b {
        Some(c) => if c == 0x22 || c == 0x5c || c == 0x2f {
            c
        } else if c == 0x62 {
            0x08
        } else if c == 0x66 {
            0x0c
        } else if c == 0x6e {
            0x0a
        } else if c == 0x72 {
            0x0d
        } else if c == 0x74 {
            0x09
        } else {
            0x5c
        },
        None => 0x5c,
    }
}

/// What the bytes at `i` stand for, and where what follows starts.
pub open spec fn piece_at(raw: Seq<u8>, i: int) -> (Seq<u8>, int) {
    if raw[i] != 0x5c {
        (seq![raw[i]], i + 1)
    } else if byte_at(raw, i + 1) == Some(0x75u8) {
        let (c, next) = unicode_at(raw, i);
        (encode_utf8(seq![c]), next)
    } else {
        (seq![short_escape(byte_at(raw, i + 1))], i + 2)
    }
}

/// The bytes that the inside of a JSON string stands for, from `i` on.
pub open spec fn unescaped(raw: Seq<u8>, i: int) -> Seq<u8>
    decreases raw.len() + 16 - i,
{
    if i < 0 || i >= raw.len() {
        seq![]
    } else {
        let (b, next) = piece_at(raw, i);
        if next > i {
            b + unescaped(raw, next)
        } else {
            b
        }
    }
}

/// The byte `k` places behind `i`.
fn at(raw: &[u8], i: usize, k: usize) -> (r: Option<u8>)
    requires
        i <= raw@.len(),
    ensures
        r == byte_at(raw@, i + k),
{
    if k < raw.len() - i {
        Some(raw[i + k])
    } else {
        None
    }
}

/// The place `k` bytes behind `i`, or the end.
fn after(raw: &[u8], i: usize, k: usize) -> (r: usize)
    requires
        i <= raw@.len(),
    ensures
        r == if i + k < raw@.len() { i + k } else { raw@.len() as int },
{
    if k < raw.len() - i {
        i + k
    } else {
        raw.len()
    }
}

fn hex4(raw: &[u8], i: usize, k: usize) -> (v: u16)
    requires
        i <= raw@.len(),
        k <= 8,
    ensures
        v == hex_number(raw@, i + k, 4),
{
    let mut v: u16 = 0;
    let mut n: usize = 0;
    while n < 4
        invariant
            n <= 4,
            i <= raw@.len(),
            k <= 8,
            v == hex_number(raw@, i + k, n as int),
        decreases 4 - n,
    {
        let d: u16 = match at(raw, i, k + n) {
            Some(c) => if 0x30 <= c && c <= 0x39 {
                (c - 0x30) as u16
            } else if 0x61 <= c && c <= 0x66 {
                (c - 0x61 + 10) as u16
            } else if 0x41 <= c && c <= 0x46 {
                (c - 0x41 + 10) as u16
            } else {
                255
            },
            None => 255,
        };
        v = (v << 4u16) | d;
        n += 1;
    }
    v
}

/// The character of the escape at `i`, and how many bytes it takes up.
fn read_unicode(raw: &[u8], i: usize) -> (r: (char, usize))
    requires
        i < raw@.len(),
    ensures
        (r.0, i + r.1) == unicode_at(raw@, i as int),
{
    let high: u16 = hex4(raw, i, 2);
    if 0xd800 <= high && high <= 0xdbff {
        if at(raw, i, 6) == Some(0x5cu8) && at(raw, i, 7) == Some(0x75u8) {
            let low: u16 = hex4(raw, i, 8);
            if 0xdc00 <= low && low <= 0xdfff {
                let n: u32 = 0x10000 + (high as u32 - 0xd800) * 0x400 + (low as u32 - 0xdc00);
                return match char_of(n) {
                    Some(c) => (c, 16),
                    None => ('\u{fffd}', 16),
                };
            }
        }
        return ('\u{fffd}', 6);
    }
    match char_of(high as u32) {
        Some(c) => (c, 6),
        None => ('\u{fffd}', 6),
    }
}

fn short_of(b: Option<u8>) -> (r: u8)
    ensures
        r == short_escape(b),
{
    match b {
        Some(c) => if c == 0x22 || c == 0x5c || c == 0x2f {
            c
        } else if c == 0x62 {
            0x08
        } else if c == 0x66 {
            0x0c
        } else if c == 0x6e {
            0x0a
        } else if c == 0x72 {
            0x0d
        } else if c == 0x74 {
            0x09
        } else {
            0x5c
        },
        None => 0x5c,
    }
}

/// Writes what a byte string means that stands inside a JSON string.
pub fn json_unescape_into(raw: &[u8], out: &mut Vec<u8>)
    ensures
        final(out)@ == old(out)@ + unescaped(raw@, 0),
{
    let mut i: usize = 0;
    while i < raw.len()
        invariant
            i <= raw@.len(),
            old(out)@ + unescaped(raw@, 0) == out@ + unescaped(raw@, i as int),
        decreases raw@.len() - i,
    {
        let c: u8 = raw[i];
        let ghost before = out@;
        let ghost from = i as int;
        if c != 0x5c {
            out.push(c);
            i += 1;
            assert(out@ =~= before + piece_at(raw@, from).0);
        } else if at(raw, i, 1) == Some(0x75u8) {
            let (ch, taken) = read_unicode(raw, i);
            let mut one = String::new();
            one.push(ch);
            assert(one@ =~= seq![ch]);
            push_text(out, one.as_str());
            i = after(raw, i, taken);
        } else {
            out.push(short_of(at(raw, i, 1)));
            i = after(raw, i, 2);
            assert(out@ =~= before + piece_at(raw@, from).0);
        }
        assert(out@ + unescaped(raw@, i as int) =~= before + unescaped(raw@, from)) by {
            let (b, next) = piece_at(raw@, from);
            assert(out@ == before + b);
            assert(unescaped(raw@, i as int) == unescaped(raw@, next));
            assert(before + (b + unescaped(raw@, next)) =~= (before + b) + unescaped(raw@, next));
        }
    }
    assert(out@ + unescaped(raw@, i as int) =~= out@);
}

// ----------------------------------------------------------------- escaping is undone

/// One escaped byte is read back.
proof fn lemma_piece(raw: Seq<u8>, i: int, b: u8, e: Seq<u8>)
    requires
        occurs_at(raw, e, i),
        e == wire_byte(b) || e == json_byte(b),
    ensures
        piece_at(raw, i) == (seq![b], i + e.len()),
{
    let t = raw.subrange(i, i + e.len());
    assert(t == e);
    assert(raw[i] == t[0]);
    if e.len() >= 2 {
        assert(raw[i + 1] == t[1]);
    }
    if e.len() == 6 {
        assert(e == unicode_escape(b));
        assert(raw[i + 2] == t[2] && raw[i + 3] == t[3] && raw[i + 4] == t[4] && raw[i + 5] == t[5]);
        let h = (b / 16) as u16;
        let l = (b % 16) as u16;
        reveal_with_fuel(hex_number, 5);
        assert(hex_value(byte_at(raw, i + 2)) == 0);
        assert(hex_value(byte_at(raw, i + 3)) == 0);
        assert(hex_value(byte_at(raw, i + 4)) == h);
        assert(hex_value(byte_at(raw, i + 5)) == l);
        assert((((((((0u16 << 4u16) | 0) << 4u16) | 0) << 4u16) | h) << 4u16) | l == h * 16 + l)
            by (bit_vector)
            requires
                h < 16,
                l < 16,
        ;
        assert(hex_number(raw, i + 2, 4) == b);
        let c = seq![b as char];
        vstd::utf8::is_ascii_chars_encode_utf8(c);
        assert(encode_utf8(c) =~= seq![b]);
    }
}

/// The escaped start of a byte string is the start of the escaped byte string.
proof fn lemma_wire_prefix(x: Seq<u8>, n: int)
    requires
        0 <= n < x.len(),
    ensures
        occurs_at(wire_bytes(x), wire_byte(x[n]), wire_bytes(x.take(n)).len() as int),
        wire_bytes(x.take(n + 1)).len() == wire_bytes(x.take(n)).len() + wire_byte(x[n]).len(),
    decreases x.len(),
{
    assert(x.take(n + 1).drop_last() =~= x.take(n));
    let w = wire_bytes(x);
    if n == x.len() - 1 {
        assert(x.take(n) =~= x.drop_last());
        let at = wire_bytes(x.take(n)).len() as int;
        assert(w.subrange(at, at + wire_byte(x[n]).len()) =~= wire_byte(x[n]));
    } else {
        let y = x.drop_last();
        lemma_wire_prefix(y, n);
        assert(y.take(n) =~= x.take(n));
        let at = wire_bytes(x.take(n)).len() as int;
        assert(w.subrange(at, at + wire_byte(x[n]).len()) =~= wire_bytes(y).subrange(
            at,
            at + wire_byte(x[n]).len(),
        ));
    }
}

proof fn lemma_json_prefix(x: Seq<u8>, n: int)
    requires
        0 <= n < x.len(),
    ensures
        occurs_at(json_bytes(x), json_byte(x[n]), json_bytes(x.take(n)).len() as int),
        json_bytes(x.take(n + 1)).len() == json_bytes(x.take(n)).len() + json_byte(x[n]).len(),
    decreases x.len(),
{
    assert(x.take(n + 1).drop_last() =~= x.take(n));
    let w = json_bytes(x);
    if n == x.len() - 1 {
        assert(x.take(n) =~= x.drop_last());
        let at = json_bytes(x.take(n)).len() as int;
        assert(w.subrange(at, at + json_byte(x[n]).len()) =~= json_byte(x[n]));
    } else {
        let y = x.drop_last();
        lemma_json_prefix(y, n);
        assert(y.take(n) =~= x.take(n));
        let at = json_bytes(x.take(n)).len() as int;
        assert(w.subrange(at, at + json_byte(x[n]).len()) =~= json_bytes(y).subrange(
            at,
            at + json_byte(x[n]).len(),
        ));
    }
}

proof fn lemma_wire_rest(x: Seq<u8>, n: int)
    requires
        0 <= n <= x.len(),
    ensures
        unescaped(wire_bytes(x), wire_bytes(x.take(n)).len() as int) == x.skip(n),
    decreases x.len() - n,
{
    let w = wire_bytes(x);
    let at = wire_bytes(x.take(n)).len() as int;
    if n == x.len() {
        assert(x.take(n) =~= x);
        assert(x.skip(n) =~= seq![]);
    } else {
        lemma_wire_prefix(x, n);
        lemma_piece(w, at, x[n], wire_byte(x[n]));
        lemma_wire_rest(x, n + 1);
        assert(x.skip(n) =~= seq![x[n]] + x.skip(n + 1));
    }
}

proof fn lemma_json_rest(x: Seq<u8>, n: int)
    requires
        0 <= n <= x.len(),
    ensures
        unescaped(json_bytes(x), json_bytes(x.take(n)).len() as int) == x.skip(n),
    decreases x.len() - n,
{
    let w = json_bytes(x);
    let at = json_bytes(x.take(n)).len() as int;
    if n == x.len() {
        assert(x.take(n) =~= x);
        assert(x.skip(n) =~= seq![]);
    } else {
        lemma_json_prefix(x, n);
        lemma_piece(w, at, x[n], json_byte(x[n]));
        lemma_json_rest(x, n + 1);
        assert(x.skip(n) =~= seq![x[n]] + x.skip(n + 1));
    }
}

/// Reading an escaped byte string gives the byte string back, whichever of the two
/// ways of escaping was used.
pub proof fn lemma_unescape_escape(x: Seq<u8>)
    ensures
        unescaped(wire_bytes(x), 0) == x,
        unescaped(json_bytes(x), 0) == x,
{
    lemma_wire_rest(x, 0);
    lemma_json_rest(x, 0);
    assert(x.take(0) =~= seq![]);
    assert(x.skip(0) =~= x);
}

/// Inside a JSON string an escaped byte string has no bare quote and no control
/// byte: each quote stands behind a backslash.
pub proof fn lemma_escaped_clean(x: Seq<u8>)
    ensures
        forall|i: int| 0 <= i < wire_bytes(x).len() ==> #[trigger] wire_bytes(x)[i] >= 0x20,
        forall|i: int|
            0 <= i < wire_bytes(x).len() && #[trigger] wire_bytes(x)[i] == 0x22 ==> i > 0
                && wire_bytes(x)[i - 1] == 0x5c,
    decreases x.len(),
{
    if x.len() > 0 {
        let y = x.drop_last();
        lemma_escaped_clean(y);
        let w = wire_bytes(x);
        let v = wire_bytes(y);
        let e = wire_byte(x.last());
        assert forall|i: int| 0 <= i < w.len() implies #[trigger] w[i] >= 0x20 by {
            if i < v.len() {
                assert(w[i] == v[i]);
            } else {
                assert(w[i] == e[i - v.len()]);
            }
        }
        assert forall|i: int| 0 <= i < w.len() && #[trigger] w[i] == 0x22 implies i > 0 && w[i - 1]
            == 0x5c by {
            if i < v.len() {
                assert(w[i] == v[i]);
                assert(w[i - 1] == v[i - 1]);
            } else {
                assert(w[i] == e[i - v.len()]);
                assert(i == v.len() + 1);
                assert(w[i - 1] == e[0]);
            }
        }
    }
}

// ------------------------------------------------------------------------------- frames

/// The first place at or after `j` that is neither a space nor a tab.
pub open spec fn past_blanks(line: Seq<u8>, j: int) -> int
    decreases line.len() - j,
{
    if 0 <= j < line.len() && (line[j] == 0x20 || line[j] == 0x09) {
        past_blanks(line, j + 1)
    } else {
        j
    }
}

/// Where the string ends whose inside starts at or before `k`.
pub open spec fn closing_quote(line: Seq<u8>, k: int) -> Option<int>
    decreases line.len() + 1 - k,
{
    if k < 0 || k >= line.len() {
        None
    } else if line[k] == 0x5c {
        closing_quote(line, k + 2)
    } else if line[k] == 0x22 {
        Some(k)
    } else {
        closing_quote(line, k + 1)
    }
}

/// The inside of the string that is the value of `key`, where `key` starts at `p`,
/// just behind its quote.
pub open spec fn value_at(line: Seq<u8>, key: Seq<u8>, p: int) -> Option<(int, int)> {
    let q = p + key.len();
    if occurs_at(line, key, p) && byte_at(line, q) == Some(0x22u8) {
        let colon = past_blanks(line, q + 1);
        let quote = past_blanks(line, colon + 1);
        if byte_at(line, colon) == Some(0x3au8) && byte_at(line, quote) == Some(0x22u8) {
            match closing_quote(line, quote + 1) {
                Some(end) => Some((quote + 1, end)),
                None => None,
            }
        } else {
            None
        }
    } else {
        None
    }
}

/// The inside of the first string that is the value of `key`, from `i` on, where
/// `inside` says whether `i` lies inside a string.
pub open spec fn field(line: Seq<u8>, key: Seq<u8>, i: int, inside: bool) -> Option<(int, int)>
    decreases line.len() + 1 - i,
{
    if i < 0 || i >= line.len() {
        None
    } else if inside {
        if line[i] == 0x5c {
            field(line, key, i + 2, true)
        } else {
            field(line, key, i + 1, line[i] != 0x22)
        }
    } else if line[i] == 0x22 {
        match value_at(line, key, i + 1) {
            Some(r) => Some(r),
            None => field(line, key, i + 1, true),
        }
    } else {
        field(line, key, i + 1, false)
    }
}

fn skip_blanks(line: &[u8], from: usize) -> (j: usize)
    requires
        from <= line@.len(),
    ensures
        j == past_blanks(line@, from as int),
        from <= j <= line@.len(),
{
    let mut j: usize = from;
    while j < line.len() && (line[j] == 0x20 || line[j] == 0x09)
        invariant
            from <= j <= line@.len(),
            past_blanks(line@, from as int) == past_blanks(line@, j as int),
        decreases line@.len() - j,
    {
        j += 1;
    }
    j
}

fn find_quote(line: &[u8], from: usize) -> (r: Option<usize>)
    requires
        from <= line@.len(),
    ensures
        match closing_quote(line@, from as int) {
            Some(k) => r matches Some(v) && v == k && from <= k < line@.len(),
            None => r is None,
        },
{
    let mut k: usize = from;
    while k < line.len()
        invariant
            from <= k <= line@.len(),
            closing_quote(line@, from as int) == closing_quote(line@, k as int),
        decreases line@.len() - k,
    {
        if line[k] == 0x5c {
            assert(k + 2 > line@.len() ==> closing_quote(line@, k + 2) is None);
            k = after(line, k, 2);
        } else if line[k] == 0x22 {
            return Some(k);
        } else {
            k += 1;
        }
    }
    None
}

fn read_value(line: &[u8], key: &[u8], p: usize) -> (r: Option<(usize, usize)>)
    requires
        p <= line@.len(),
    ensures
        match value_at(line@, key@, p as int) {
            Some(v) => r matches Some(w) && w.0 == v.0 && w.1 == v.1 && p <= v.0 <= v.1
                < line@.len(),
            None => r is None,
        },
{
    let n: usize = line.len();
    if !bytes_at(line, key, p) {
        return None;
    }
    let q: usize = p + key.len();
    if q >= n || line[q] != 0x22 {
        return None;
    }
    let colon: usize = skip_blanks(line, q + 1);
    if colon >= line.len() || line[colon] != 0x3a {
        return None;
    }
    let quote: usize = skip_blanks(line, colon + 1);
    if quote >= line.len() || line[quote] != 0x22 {
        return None;
    }
    match find_quote(line, quote + 1) {
        Some(end) => Some((quote + 1, end)),
        None => None,
    }
}

fn json_str_field(line: &[u8], key: &[u8]) -> (r: Option<(usize, usize)>)
    ensures
        match field(line@, key@, 0, false) {
            Some(v) => r matches Some(w) && w.0 == v.0 && w.1 == v.1 && 0 <= v.0 <= v.1
                < line@.len(),
            None => r is None,
        },
{
    let mut i: usize = 0;
    let mut in_str: bool = false;
    while i < line.len()
        invariant
            i <= line@.len(),
            field(line@, key@, 0, false) == field(line@, key@, i as int, in_str),
        decreases line@.len() - i,
    {
        let c: u8 = line[i];
        if in_str {
            if c == 0x5c {
                assert(i + 2 > line@.len() ==> field(line@, key@, i + 2, true) is None);
                i = after(line, i, 2);
            } else {
                in_str = c != 0x22;
                i += 1;
            }
        } else if c == 0x22 {
            if let Some(v) = read_value(line, key, i + 1) {
                return Some(v);
            }
            in_str = true;
            i += 1;
        } else {
            i += 1;
        }
    }
    None
}

/// What a frame of the event stream says.
#[derive(Debug, PartialEq)]
pub enum Ev<'a> {
    Part(&'a str),
    Reasoning(&'a str),
    Done,
}

/// What a frame says, over plain texts.
pub enum EvV {
    Part(Seq<char>),
    Reasoning(Seq<char>),
    Done,
}

impl View for Ev<'_> {
    type V = EvV;

    open spec fn view(&self) -> EvV {
        match *self {
            Ev::Part(s) => EvV::Part(s@),
            Ev::Reasoning(s) => EvV::Reasoning(s@),
            Ev::Done => EvV::Done,
        }
    }
}

/// The bytes of the value of a field.
pub open spec fn field_bytes(line: Seq<u8>, key: Seq<char>) -> Option<Seq<u8>> {
    match field(line, encode_utf8(key), 0, false) {
        Some(v) => Some(line.subrange(v.0, v.1)),
        None => None,
    }
}

/// The text of a value, where it is not empty and well formed.
pub open spec fn text_of(raw: Seq<u8>) -> Option<Seq<char>> {
    let b = unescaped(raw, 0);
    if b.len() > 0 && valid_utf8(b) {
        Some(decode_utf8(b))
    } else {
        None
    }
}

/// What a frame of the event stream says, if anything.
pub open spec fn frame(line: Seq<u8>) -> Option<EvV> {
    if line.len() == 0 || line == encode_utf8("[DONE]"@) {
        Some(EvV::Done)
    } else if line[0] == 0x5b {
        None
    } else {
        match field_bytes(line, "message"@) {
            Some(raw) => match text_of(raw) {
                Some(t) => Some(EvV::Part(t)),
                None => None,
            },
            None => if field_bytes(line, "role"@) == Some(encode_utf8("reasoning"@)) {
                match field_bytes(line, "text"@) {
                    Some(raw) => match text_of(raw) {
                        Some(t) => Some(EvV::Reasoning(t)),
                        None => None,
                    },
                    None => None,
                }
            } else {
                None
            },
        }
    }
}

/// What the scratch buffer holds once a frame has been read.
pub open spec fn scratched(line: Seq<u8>, before: Seq<u8>) -> Seq<u8> {
    if line.len() == 0 || line == encode_utf8("[DONE]"@) || line[0] == 0x5b {
        before
    } else {
        match field_bytes(line, "message"@) {
            Some(raw) => unescaped(raw, 0),
            None => match field_bytes(line, "text"@) {
                Some(raw) => if field_bytes(line, "role"@) == Some(encode_utf8("reasoning"@)) {
                    unescaped(raw, 0)
                } else {
                    before
                },
                None => before,
            },
        }
    }
}

fn field_of(line: &[u8], key: &str) -> (r: Option<Vec<u8>>)
    ensures
        match field_bytes(line@, key@) {
            Some(b) => r matches Some(v) && v@ == b && b.len() <= line@.len(),
            None => r is None,
        },
{
    match json_str_field(line, key.as_bytes()) {
        Some((s, e)) => Some(bytes_of(line, s, e)),
        None => None,
    }
}

fn read_text<'s>(raw: &[u8], scratch: &'s mut Vec<u8>) -> (r: Option<&'s str>)
    ensures
        match text_of(raw@) {
            Some(t) => r matches Some(s) && s@ == t,
            None => r is None,
        },
        final(scratch)@ == unescaped(raw@, 0),
{
    scratch.clear();
    json_unescape_into(raw, scratch);
    assert(Seq::<u8>::empty() + unescaped(raw@, 0) =~= unescaped(raw@, 0));
    if scratch.len() == 0 {
        return None;
    }
    utf8_str(scratch.as_slice())
}

/// Reads a frame of the event stream.
pub fn parse_ddg_frame<'s>(line: &'s [u8], scratch: &'s mut Vec<u8>) -> (r: Option<Ev<'s>>)
    ensures
        match frame(line@) {
            Some(e) => r matches Some(v) && v@ == e,
            None => r is None,
        },
        final(scratch)@ == scratched(line@, old(scratch)@),
{
    if line.len() == 0 || bytes_eq(line, "[DONE]".as_bytes()) {
        return Some(Ev::Done);
    }
    if line[0] == 0x5b {
        return None;
    }
    if let Some(raw) = field_of(line, "message") {
        return match read_text(raw.as_slice(), scratch) {
            Some(t) => Some(Ev::Part(t)),
            None => None,
        };
    }
    let role = match field_of(line, "role") {
        Some(role) => role,
        None => return None,
    };
    if !bytes_eq(role.as_slice(), "reasoning".as_bytes()) {
        return None;
    }
    match field_of(line, "text") {
        Some(raw) => match read_text(raw.as_slice(), scratch) {
            Some(t) => Some(Ev::Reasoning(t)),
            None => None,
        },
        None => None,
    }
}

/// The end of a string is searched for past plain bytes.
proof fn lemma_plain_run(line: Seq<u8>, k: int, n: int)
    requires
        0 <= k,
        0 <= n,
        k + n <= line.len(),
        forall|j: int| k <= j < k + n ==> #[trigger] line[j] != 0x5c && line[j] != 0x22,
    ensures
        closing_quote(line, k) == closing_quote(line, k + n),
    decreases n,
{
    if n > 0 {
        assert(line[k] != 0x5c && line[k] != 0x22);
        lemma_plain_run(line, k + 1, n - 1);
    }
}

/// An escaped string ends at the quote behind it.
proof fn lemma_closing(line: Seq<u8>, p: int, x: Seq<u8>, n: int)
    requires
        occurs_at(line, wire_bytes(x), p),
        byte_at(line, p + wire_bytes(x).len()) == Some(0x22u8),
        0 <= n <= x.len(),
    ensures
        closing_quote(line, p + wire_bytes(x.take(n)).len()) == Some(p + wire_bytes(x).len()),
    decreases x.len() - n,
{
    let w = wire_bytes(x);
    let k = p + wire_bytes(x.take(n)).len();
    if n == x.len() {
        assert(x.take(n) =~= x);
    } else {
        lemma_wire_prefix(x, n);
        lemma_closing(line, p, x, n + 1);
        let e = wire_byte(x[n]);
        let off = wire_bytes(x.take(n)).len() as int;
        assert(line.subrange(p, p + w.len())[off] == line[k]);
        assert(w.subrange(off, off + e.len())[0] == w[off]);
        assert(line[k] == e[0]);
        if e.len() >= 2 {
            assert(line.subrange(p, p + w.len())[off + 1] == line[k + 1]);
            assert(w.subrange(off, off + e.len())[1] == w[off + 1]);
            assert(line[k + 1] == e[1]);
        }
        if e.len() == 6 {
            assert forall|j: int| 2 <= j < 6 implies #[trigger] e[j] == line[k + j] by {
                assert(line.subrange(p, p + w.len())[off + j] == line[k + j]);
                assert(w.subrange(off, off + e.len())[j] == w[off + j]);
            }
            assert forall|j: int| k + 2 <= j < k + 6 implies #[trigger] line[j] != 0x5c && line[j]
                != 0x22 by {
                assert(e[j - k] == line[k + (j - k)]);
            }
            lemma_plain_run(line, k + 2, 4);
        }
    }
}

/// The frame that carries a text.
pub open spec fn message_frame(t: Seq<char>) -> Seq<u8> {
    encode_utf8("{\"message\":\""@) + wire_bytes(encode_utf8(t)) + encode_utf8("\"}"@)
}

/// A text put into a frame is read back from it.
pub proof fn lemma_frame_round_trip(t: Seq<char>)
    requires
        t.len() > 0,
    ensures
        frame(message_frame(t)) == Some(EvV::Part(t)),
{
    let line = message_frame(t);
    let key = encode_utf8("message"@);
    let x = encode_utf8(t);
    let w = wire_bytes(x);
    reveal_strlit("{\"message\":\"");
    reveal_strlit("message");
    reveal_strlit("\"}");
    reveal_strlit("[DONE]");
    vstd::utf8::is_ascii_chars_encode_utf8("{\"message\":\""@);
    vstd::utf8::is_ascii_chars_encode_utf8("message"@);
    vstd::utf8::is_ascii_chars_encode_utf8("\"}"@);
    vstd::utf8::is_ascii_chars_encode_utf8("[DONE]"@);
    assert(line[0] == 0x7b && line[1] == 0x22 && line[9] == 0x22 && line[10] == 0x3a && line[11]
        == 0x22);
    assert(line.subrange(2, 9) =~= key);
    assert(past_blanks(line, 10) == 10);
    assert(past_blanks(line, 11) == 11);
    assert(line.subrange(12, 12int + w.len()) =~= w);
    assert(line[12int + w.len()] == 0x22);
    lemma_closing(line, 12, x, 0);
    assert(x.take(0) =~= seq![]);
    assert(wire_bytes(x.take(0)) =~= seq![]);
    assert(value_at(line, key, 2) == Some((12int, 12int + w.len())));
    assert(field(line, key, 1, false) == Some((12int, 12int + w.len())));
    assert(field(line, key, 0, false) == Some((12int, 12int + w.len())));
    lemma_unescape_escape(x);
    vstd::utf8::encode_utf8_decode_utf8(t);
    vstd::utf8::encode_utf8_valid_utf8(t);
    vstd::utf8::encode_utf8_first_scalar(t);
}

// ------------------------------------------------------------------------ inline markers

/// A tag that marks no text: advertising, limits, stop reasons and titles.
pub open spec fn marker(tag: Seq<char>) -> bool {
    ||| tag == "ADS"@
    ||| "LIMIT_"@.is_prefix_of(tag)
    ||| "STOP_REASON"@.is_prefix_of(tag)
    ||| "CHAT_TITLE"@.is_prefix_of(tag)
}

/// A text without the markers that stand in it in square brackets, from `i` on. A
/// bracket opens a tag that runs to the next closing bracket.
pub open spec fn stripped(s: Seq<char>, i: int) -> Seq<char>
    decreases s.len() - i,
    when 0 <= i <= s.len()
{
    proof {
        lemma_next_item(s, '[', i);
        if next_item(s, '[', i) is Some {
            lemma_next_item(s, ']', next_item(s, '[', i)->0);
        }
    }
    match next_item(s, '[', i) {
        None => s.skip(i),
        Some(open) => match next_item(s, ']', open) {
            None => s.skip(i),
            Some(close) => {
                let tag = s.subrange(open + 1, close);
                s.subrange(i, open) + (if marker(tag) {
                    seq![]
                } else {
                    seq!['['] + tag + seq![']']
                }) + stripped(s, close + 1)
            },
        },
    }
}

fn starts(s: &Vec<char>, from: usize, to: usize, prefix: &str) -> (r: bool)
    requires
        from <= to <= s@.len(),
    ensures
        r == prefix@.is_prefix_of(s@.subrange(from as int, to as int)),
{
    let p = chars_of(prefix);
    let ghost t = s@.subrange(from as int, to as int);
    if p.len() > to - from {
        return false;
    }
    let mut i: usize = 0;
    while i < p.len()
        invariant
            from <= to <= s@.len(),
            p@ == prefix@,
            t == s@.subrange(from as int, to as int),
            p@.len() <= to - from,
            i <= p@.len(),
            forall|k: int| 0 <= k < i ==> #[trigger] p@[k] == t[k],
        decreases p@.len() - i,
    {
        if s[from + i] != p[i] {
            assert(t[i as int] != p@[i as int]);
            assert(t.take(p@.len() as int)[i as int] == t[i as int]);
            return false;
        }
        i += 1;
    }
    assert(t.take(p@.len() as int) =~= p@);
    true
}

fn is_marker(s: &Vec<char>, from: usize, to: usize) -> (r: bool)
    requires
        from <= to <= s@.len(),
    ensures
        r == marker(s@.subrange(from as int, to as int)),
{
    let ghost t = s@.subrange(from as int, to as int);
    proof {
        reveal_strlit("ADS");
        if "ADS"@.is_prefix_of(t) && t.len() == 3 {
            assert(t.take(3) =~= t);
        }
        if t == "ADS"@ {
            assert(t.take(3) =~= t);
        }
    }
    (to - from == 3 && starts(s, from, to, "ADS")) || starts(s, from, to, "LIMIT_") || starts(
        s,
        from,
        to,
        "STOP_REASON",
    ) || starts(s, from, to, "CHAT_TITLE")
}

fn push_chars(out: &mut String, s: &Vec<char>, from: usize, to: usize)
    requires
        from <= to <= s@.len(),
    ensures
        final(out)@ == old(out)@ + s@.subrange(from as int, to as int),
{
    let mut i: usize = from;
    assert(old(out)@ + s@.subrange(from as int, from as int) =~= old(out)@);
    while i < to
        invariant
            from <= i <= to <= s@.len(),
            out@ == old(out)@ + s@.subrange(from as int, i as int),
        decreases to - i,
    {
        out.push(s[i]);
        i += 1;
        assert(out@ =~= old(out)@ + s@.subrange(from as int, i as int));
    }
}

/// Puts into `out` the text `s` without its markers.
pub fn strip_inline_markers(s: &str, out: &mut String)
    ensures
        final(out)@ == stripped(s@, 0),
{
    let v = chars_of(s);
    let n: usize = v.len();
    *out = String::new();
    let mut i: usize = 0;
    assert(out@ + stripped(v@, 0) =~= stripped(v@, 0));
    loop
        invariant
            v@ == s@,
            n == v@.len(),
            i <= n,
            out@ + stripped(v@, i as int) == stripped(s@, 0),
        decreases v@.len() - i,
    {
        let ghost before = out@;
        proof {
            lemma_next_item(v@, '[', i as int);
        }
        let (open, close): (usize, usize) = match find_char(&v, '[', i) {
            Some(open) => match find_char(&v, ']', open) {
                Some(close) => (open, close),
                None => {
                    push_chars(out, &v, i, v.len());
                    assert(v@.subrange(i as int, v@.len() as int) =~= v@.skip(i as int));
                    return ;
                },
            },
            None => {
                push_chars(out, &v, i, v.len());
                assert(v@.subrange(i as int, v@.len() as int) =~= v@.skip(i as int));
                return ;
            },
        };
        push_chars(out, &v, i, open);
        if !is_marker(&v, open + 1, close) {
            out.push('[');
            push_chars(out, &v, open + 1, close);
            out.push(']');
        }
        proof {
            let tag = v@.subrange(open + 1, close as int);
            let kept = if marker(tag) {
                seq![]
            } else {
                seq!['['] + tag + seq![']']
            };
            assert(out@ =~= before + v@.subrange(i as int, open as int) + kept);
            assert(before + (v@.subrange(i as int, open as int) + kept + stripped(v@, close + 1))
                =~= out@ + stripped(v@, close + 1));
        }
        i = close + 1;
    }
}

/// A text without square brackets is left as it is.
pub proof fn lemma_strip_plain(s: Seq<char>)
    requires
        forall|k: int| 0 <= k < s.len() ==> #[trigger] s[k] != '[',
    ensures
        stripped(s, 0) == s,
{
    lemma_next_item(s, '[', 0);
    assert(s.skip(0) =~= s);
}

/// Stripping a text of its markers never makes it longer.
pub proof fn lemma_strip_shorter(s: Seq<char>, i: int)
    requires
        0 <= i <= s.len(),
    ensures
        stripped(s, i).len() <= s.len() - i,
    decreases s.len() - i,
{
    lemma_next_item(s, '[', i);
    if let Some(open) = next_item(s, '[', i) {
        lemma_next_item(s, ']', open);
        if let Some(close) = next_item(s, ']', open) {
            lemma_strip_shorter(s, close + 1);
        }
    }
}

/// A marker alone between two pieces of text without brackets goes, and the two
/// pieces stay.
pub proof fn lemma_strip_marker(a: Seq<char>, tag: Seq<char>, b: Seq<char>)
    requires
        forall|k: int| 0 <= k < a.len() ==> #[trigger] a[k] != '[',
        forall|k: int| 0 <= k < tag.len() ==> #[trigger] tag[k] != ']',
        forall|k: int| 0 <= k < b.len() ==> #[trigger] b[k] != '[',
        marker(tag),
    ensures
        stripped(a + seq!['['] + tag + seq![']'] + b, 0) == a + b,
{
    let s = a + seq!['['] + tag + seq![']'] + b;
    let open = a.len() as int;
    let close = open + 1 + tag.len();
    assert(forall|k: int| 0 <= k < a.len() ==> s[k] == a[k]);
    assert(s[open] == '[');
    assert(forall|k: int| 0 <= k < tag.len() ==> s[open + 1 + k] == tag[k]);
    assert(s[close] == ']');
    assert(forall|k: int| 0 <= k < b.len() ==> s[close + 1 + k] == b[k]);
    lemma_next_item(s, '[', 0);
    assert(next_item(s, '[', 0) == Some(open));
    lemma_next_item(s, ']', open);
    assert forall|k: int| open <= k < close implies s[k] != ']' by {
        if k > open {
            assert(s[k] == tag[k - open - 1]);
        }
    }
    assert(next_item(s, ']', open) == Some(close));
    assert(s.subrange(open + 1, close) =~= tag);
    lemma_next_item(s, '[', close + 1);
    assert forall|k: int| close + 1 <= k < s.len() implies s[k] != '[' by {
        assert(s[k] == b[k - close - 1]);
    }
    assert(next_item(s, '[', close + 1) is None);
    assert(stripped(s, close + 1) == s.skip(close + 1));
    assert(s.skip(close + 1) =~= b);
    assert(s.subrange(0, open) =~= a);
    assert(stripped(s, 0) =~= a + b);
}

/// What is found behind a piece of text is found where it stands there.
proof fn lemma_next_behind(a: Seq<char>, s: Seq<char>, c: char, i: int)
    requires
        0 <= i,
    ensures
        next_item(a + s, c, a.len() + i) == (match next_item(s, c, i) {
            Some(p) => Some(a.len() + p),
            None => None::<int>,
        }),
    decreases s.len() - i,
{
    if i < s.len() {
        assert((a + s)[a.len() + i] == s[i]);
        lemma_next_behind(a, s, c, i + 1);
    }
}

/// What stands before the place where stripping starts does not matter.
proof fn lemma_strip_behind(a: Seq<char>, s: Seq<char>, i: int)
    requires
        0 <= i <= s.len(),
    ensures
        stripped(a + s, a.len() + i) == stripped(s, i),
    decreases s.len() - i,
{
    let t = a + s;
    let n = a.len() as int;
    lemma_next_behind(a, s, '[', i);
    lemma_next_item(s, '[', i);
    assert(t.skip(n + i) =~= s.skip(i));
    if let Some(open) = next_item(s, '[', i) {
        lemma_next_behind(a, s, ']', open);
        lemma_next_item(s, ']', open);
        if let Some(close) = next_item(s, ']', open) {
            lemma_strip_behind(a, s, close + 1);
            assert(t.subrange(n + open + 1, n + close) =~= s.subrange(open + 1, close));
            assert(t.subrange(n + i, n + open) =~= s.subrange(i, open));
        }
    }
}

/// A piece of text without an opening bracket stays before what follows it.
proof fn lemma_strip_before(a: Seq<char>, s: Seq<char>)
    requires
        forall|k: int| 0 <= k < a.len() ==> #[trigger] a[k] != '[',
    ensures
        stripped(a + s, 0) == a + stripped(s, 0),
{
    let t = a + s;
    let n = a.len() as int;
    lemma_skipped(t, '[', n);
    lemma_next_behind(a, s, '[', 0);
    lemma_next_item(s, '[', 0);
    assert(t.skip(0) =~= a + s.skip(0));
    if let Some(open) = next_item(s, '[', 0) {
        lemma_next_behind(a, s, ']', open);
        lemma_next_item(s, ']', open);
        if let Some(close) = next_item(s, ']', open) {
            lemma_strip_behind(a, s, close + 1);
            assert(t.subrange(n + open + 1, n + close) =~= s.subrange(open + 1, close));
            assert(t.subrange(0, n + open) =~= a + s.subrange(0, open));
            assert(stripped(t, 0) =~= a + stripped(s, 0));
        }
    }
}

proof fn lemma_skipped(s: Seq<char>, c: char, n: int)
    requires
        0 <= n <= s.len(),
        forall|k: int| 0 <= k < n ==> #[trigger] s[k] != c,
    ensures
        next_item(s, c, 0) == next_item(s, c, n),
{
    lemma_next_item(s, c, 0);
    lemma_next_item(s, c, n);
}

/// What becomes of a text whose first tag is `tag`, after `a` and before `b`.
proof fn lemma_strip_tag(a: Seq<char>, tag: Seq<char>, b: Seq<char>)
    requires
        forall|k: int| 0 <= k < a.len() ==> #[trigger] a[k] != '[',
        forall|k: int| 0 <= k < tag.len() ==> #[trigger] tag[k] != ']',
    ensures
        stripped(a + (seq!['['] + tag + seq![']']) + b, 0) == a + (if marker(tag) {
            seq![]
        } else {
            seq!['['] + tag + seq![']']
        }) + stripped(b, 0),
{
    let mid = seq!['['] + tag + seq![']'];
    let head = a + mid;
    let s = head + b;
    let open = a.len() as int;
    let close = open + 1 + tag.len();
    assert forall|k: int| 0 <= k < open implies #[trigger] s[k] != '[' by {
        assert(s[k] == a[k]);
    }
    assert(s[open] == '[');
    assert(s[close] == ']');
    lemma_skipped(s, '[', open);
    assert(next_item(s, '[', 0) == Some(open));
    assert forall|k: int| open <= k < close implies #[trigger] s[k] != ']' by {
        if k > open {
            assert(s[k] == tag[k - open - 1]);
        }
    }
    lemma_next_item(s, ']', open);
    assert(next_item(s, ']', open) == Some(close));
    assert(s.subrange(open + 1, close) =~= tag);
    assert(s.subrange(0, open) =~= a);
    assert(head.len() == close + 1);
    lemma_strip_behind(head, b, 0);
}

/// Stripping a text twice is stripping it once.
pub proof fn lemma_strip_twice(s: Seq<char>)
    ensures
        stripped(stripped(s, 0), 0) == stripped(s, 0),
    decreases s.len(),
{
    lemma_next_item(s, '[', 0);
    if let Some(open) = next_item(s, '[', 0) {
        lemma_next_item(s, ']', open);
        if let Some(close) = next_item(s, ']', open) {
            let a = s.subrange(0, open);
            let tag = s.subrange(open + 1, close);
            let rest = s.skip(close + 1);
            assert(s =~= a + (seq!['['] + tag + seq![']']) + rest);
            lemma_strip_tag(a, tag, rest);
            let r = stripped(rest, 0);
            lemma_strip_twice(rest);
            if marker(tag) {
                assert(a + Seq::<char>::empty() + r =~= a + r);
                lemma_strip_before(a, r);
            } else {
                lemma_strip_tag(a, tag, r);
            }
        }
    }
    assert(s.skip(0) =~= s);
}

} // verus!
