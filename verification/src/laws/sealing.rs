//! What a token says.
use vstd::prelude::*;
#[allow(unused_imports)]
use vstd::utf8::encode_utf8;

#[allow(unused_imports)]
use crate::b64::{decoded, encoded, lemma_encoded_ascii, lemma_encoded_len, lemma_round_trip};
#[allow(unused_imports)]
use crate::floats::FloatsV;
#[allow(unused_imports)]
use crate::pipeline::flow::{FlowErr, Model};
#[allow(unused_imports)]
use crate::pipeline::probes::Probe;
#[allow(unused_imports)]
use crate::pipeline::sx::texts;
#[allow(unused_imports)]
use crate::sha::{digest, digest_text, lemma_digest_len};
#[allow(unused_imports)]
use crate::solver::{
    debug_part, hash_list, meta_part, mixed, signal_members, token_char, token_chars, token_string,
    unit_escape, unit_text, unit_texts, Facts,
};
#[allow(unused_imports)]
use crate::text::{decimal, latin, utf16};

verus! {

/// The digest that stands for some bytes: the base64 text of their SHA-256.
pub open spec fn hash_of(bytes: Seq<u8>) -> Seq<char> {
    latin(encoded(digest(bytes)))
}

/// A text in quotes.
pub open spec fn in_quotes(s: Seq<char>) -> Seq<char> {
    seq!['"'] + s + seq!['"']
}

proof fn lemma_hash_len(bytes: Seq<u8>)
    ensures
        hash_of(bytes).len() == 44,
        digest_text(bytes) == hash_of(bytes),
{
    lemma_digest_len(bytes);
    lemma_encoded_len(digest(bytes));
}

proof fn lemma_quote()
    ensures
        "\""@ == seq!['"'],
        ","@ == seq![','],
        ",\""@ == seq![',', '"'],
{
    reveal_strlit("\"");
    reveal_strlit(",");
    reveal_strlit(",\"");
    assert("\""@ =~= seq!['"']);
    assert(","@ =~= seq![',']);
    assert(",\""@ =~= seq![',', '"']);
}

/// Entry by entry: the digests of the probes, each behind a comma and in quotes, take 47
/// characters each.
proof fn lemma_probe_hashes(fl: FloatsV, v: Seq<Probe>, n: int)
    requires
        0 <= n <= v.len(),
    ensures
        fl.probe_hashes(v, n).len() == 47 * n,
        forall|i: int|
            0 <= i < n ==> #[trigger] fl.probe_hashes(v, n).subrange(47 * i, 47 * i + 47) == seq![',']
                + in_quotes(hash_of(encode_utf8(fl.num_text(v[i].value->0)))),
    decreases n,
{
    if n > 0 {
        lemma_probe_hashes(fl, v, n - 1);
        lemma_quote();
        let t = fl.probe_hashes(v, n);
        let u = fl.probe_hashes(v, n - 1);
        let bytes = encode_utf8(fl.num_text(v[n - 1].value->0));
        lemma_hash_len(bytes);
        assert(t =~= u + (seq![','] + in_quotes(hash_of(bytes))));
        assert forall|i: int| 0 <= i < n implies #[trigger] t.subrange(47 * i, 47 * i + 47) == seq![
            ',',
        ] + in_quotes(hash_of(encode_utf8(fl.num_text(v[i].value->0)))) by {
            if i < n - 1 {
                assert(t.subrange(47 * i, 47 * i + 47) =~= u.subrange(47 * i, 47 * i + 47));
            } else {
                assert(t.subrange(47 * i, 47 * i + 47) =~= seq![','] + in_quotes(hash_of(bytes)));
            }
        }
    }
}

/// In the text `t`, from place `at` on, stands a list in square brackets of `1 + n` digests
/// in quotes with commas between them: that of the user agent first, then that of the
/// value of each probe, in the order of the probes.
pub open spec fn lists_clients(fl: FloatsV, t: Seq<char>, at: int, ua: Seq<char>, v: Seq<Probe>) -> bool {
    &&& 0 < at
    &&& at + 47 * (v.len() + 1) <= t.len()
    &&& t[at - 1] == '['
    &&& t.subrange(at, at + 46) == in_quotes(hash_of(encode_utf8(ua)))
    &&& forall|i: int|
        0 <= i < v.len() ==> #[trigger] t.subrange(at + 47 * (i + 1) - 1, at + 47 * (i + 1) + 46) == seq![
            ',',
        ] + in_quotes(hash_of(encode_utf8(fl.num_text(v[i].value->0))))
    &&& t[at + 47 * (v.len() + 1) - 1] == ']'
}

/// The client hashes of a token: as many as there are probes and one more, the first of
/// the user agent and the one behind it at each place of the probe at that place.
pub proof fn lemma_client_hashes(fl: FloatsV, m: Model, ua: Seq<char>, f: Facts, duration: u64)
    ensures
        exists|at: int|
            #![trigger lists_clients(fl, fl.token_text(m, ua, f, duration), at, ua, m.probes@)]
            lists_clients(fl, fl.token_text(m, ua, f, duration), at, ua, m.probes@)
                && "\"client_hashes\":["@.is_suffix_of(
                fl.token_text(m, ua, f, duration).take(at),
            ),
{
    let t = fl.token_text(m, ua, f, duration);
    let n = m.probes@.len() as int;
    let servers = hash_list(texts(m.server_hashes@), m.server_hashes@.len() as int);
    reveal_strlit("{\"server_hashes\":[");
    reveal_strlit("],\"client_hashes\":[\"");
    reveal_strlit("\"client_hashes\":[");
    reveal_strlit("],\"signals\":{},\"meta\":{\"v\":\"");
    lemma_quote();
    lemma_hash_len(encode_utf8(ua));
    lemma_probe_hashes(fl, m.probes@, n);
    let head = "{\"server_hashes\":["@ + servers + "],"@ + "\"client_hashes\":["@;
    reveal_strlit("],");
    let first = in_quotes(hash_of(encode_utf8(ua)));
    let ps = fl.probe_hashes(m.probes@, n);
    let meta = meta_part(m, f, duration);
    assert(t =~= head + first + ps + meta);
    assert(meta[0] == ']');
    let at = head.len() as int;
    assert(t[at - 1] == '[');
    assert(t.subrange(at, at + 46) =~= first);
    assert(ps.len() == 47 * n);
    assert(47 * (n + 1) == 47 * n + 47);
    assert forall|i: int| 0 <= i < n implies #[trigger] t.subrange(
        at + 47 * (i + 1) - 1,
        at + 47 * (i + 1) + 46,
    ) == seq![','] + in_quotes(hash_of(encode_utf8(fl.num_text(m.probes@[i].value->0)))) by {
        assert(at + 47 * (i + 1) - 1 == at + 46 + 47 * i);
        assert(t.subrange(at + 47 * (i + 1) - 1, at + 47 * (i + 1) + 46) =~= ps.subrange(
            47 * i,
            47 * i + 47,
        ));
    }
    assert(t[at + 46 + 47 * n] == meta[0]);
    assert(lists_clients(fl, t, at, ua, m.probes@));
    let q = "\"client_hashes\":["@;
    assert(t.take(at) =~= head);
    assert(head.subrange(head.len() - q.len(), head.len() as int) =~= q);
}

/// The server hashes of a token: what the challenge sent, in its order, in quotes and
/// escaped.
pub proof fn lemma_server_hashes(fl: FloatsV, m: Model, ua: Seq<char>, f: Facts, duration: u64)
    requires
        m.server_hashes@.len() == 3,
    ensures
        ("{\"server_hashes\":["@ + in_quotes(token_string(m.server_hashes@[0]@)) + seq![',']
            + in_quotes(token_string(m.server_hashes@[1]@)) + seq![','] + in_quotes(
            token_string(m.server_hashes@[2]@),
        ) + "],\"client_hashes\":["@).is_prefix_of(fl.token_text(m, ua, f, duration)),
{
    lemma_quote();
    reveal_strlit("],\"client_hashes\":[\"");
    reveal_strlit("],\"client_hashes\":[");
    let v = texts(m.server_hashes@);
    let (a, b, c) = (
        in_quotes(token_string(v[0])),
        in_quotes(token_string(v[1])),
        in_quotes(token_string(v[2])),
    );
    assert(hash_list(v, 0) =~= seq![]);
    assert(hash_list(v, 1) =~= a);
    assert(hash_list(v, 2) =~= a + seq![','] + b);
    assert(hash_list(v, 3) =~= a + seq![','] + b + seq![','] + c);
    let t = fl.token_text(m, ua, f, duration);
    let p = "{\"server_hashes\":["@ + a + seq![','] + b + seq![','] + c + "],\"client_hashes\":["@;
    assert(t.take(p.len() as int) =~= p);
}

/// What a token says of itself and its page: the version, the identifier and the time of
/// the challenge, and the origin, stack and duration of the page, each under its name.
pub proof fn lemma_meta(fl: FloatsV, m: Model, ua: Seq<char>, f: Facts, duration: u64)
    ensures
        ("],\"signals\":{},\"meta\":{\"v\":\""@ + m.v@ + "\",\"challenge_id\":\""@ + m.challenge_id@
            + "\",\"timestamp\":\""@ + m.timestamp@ + "\",\"debug\":\""@ + debug_part(
            seq![],
            m.key@,
        ) + "\",\"origin\":\""@ + f.origin@ + "\",\"stack\":\"Error\\n    at "@ + f.stack.fname@
            + " ("@ + f.bundle_url@ + ":"@ + decimal(f.stack.line as nat) + ":"@ + decimal(
            f.stack.col_error as nat,
        ) + ")\\n    at async "@ + f.bundle_url@ + ":"@ + decimal(f.stack.line as nat) + ":"@
            + decimal(f.stack.col_race as nat) + "\",\"duration\":\""@ + decimal(duration as nat)
            + "\"}}"@).is_suffix_of(fl.token_text(m, ua, f, duration)),
{
    reveal_strlit("\",\"stack\":\"");
    reveal_strlit("Error\\n    at ");
    reveal_strlit("\",\"stack\":\"Error\\n    at ");
    assert("\",\"stack\":\"Error\\n    at "@ =~= "\",\"stack\":\""@ + "Error\\n    at "@);
    let meta = meta_part(m, f, duration);
    let said = "],\"signals\":{},\"meta\":{\"v\":\""@ + m.v@ + "\",\"challenge_id\":\""@
        + m.challenge_id@ + "\",\"timestamp\":\""@ + m.timestamp@ + "\",\"debug\":\""@ + debug_part(
        seq![],
        m.key@,
    ) + "\",\"origin\":\""@ + f.origin@ + "\",\"stack\":\"Error\\n    at "@ + f.stack.fname@ + " ("@
        + f.bundle_url@ + ":"@ + decimal(f.stack.line as nat) + ":"@ + decimal(
        f.stack.col_error as nat,
    ) + ")\\n    at async "@ + f.bundle_url@ + ":"@ + decimal(f.stack.line as nat) + ":"@ + decimal(
        f.stack.col_race as nat,
    ) + "\",\"duration\":\""@ + decimal(duration as nat) + "\"}}"@;
    lemma_meta_words(m, f, duration);
    let t = fl.token_text(m, ua, f, duration);
    assert(t.subrange(t.len() - meta.len(), t.len() as int) =~= meta);
}

proof fn lemma_meta_words(m: Model, f: Facts, duration: u64)
    ensures
        meta_part(m, f, duration) == "],\"signals\":{},\"meta\":{\"v\":\""@ + m.v@
            + "\",\"challenge_id\":\""@ + m.challenge_id@ + "\",\"timestamp\":\""@ + m.timestamp@
            + "\",\"debug\":\""@ + debug_part(seq![], m.key@) + "\",\"origin\":\""@ + f.origin@
            + "\",\"stack\":\"Error\\n    at "@ + f.stack.fname@ + " ("@ + f.bundle_url@ + ":"@
            + decimal(f.stack.line as nat) + ":"@ + decimal(f.stack.col_error as nat)
            + ")\\n    at async "@ + f.bundle_url@ + ":"@ + decimal(f.stack.line as nat) + ":"@
            + decimal(f.stack.col_race as nat) + "\",\"duration\":\""@ + decimal(duration as nat)
            + "\"}}"@,
{
    broadcast use crate::text::group_concat;

    reveal_strlit("\",\"stack\":\"");
    reveal_strlit("Error\\n    at ");
    reveal_strlit("\",\"stack\":\"Error\\n    at ");
    assert("\",\"stack\":\"Error\\n    at "@ =~= "\",\"stack\":\""@ + "Error\\n    at "@);
}

/// A token is read back by decoding it: out comes the text that says all this.
pub proof fn lemma_token_read(
    fl: FloatsV,
    s: String,
    m: Model,
    ua: Seq<char>,
    f: Facts,
    duration: u64,
)
    requires
        fl.sealed(Ok(s), m, ua, f, duration),
    ensures
        decoded(encode_utf8(s@)) == Some(encode_utf8(fl.token_text(m, ua, f, duration))),
        forall|i: int| 0 <= i < m.probes@.len() ==> (#[trigger] m.probes@[i]).value is Some,
        m.key@.len() > 0,
{
    let raw = encode_utf8(fl.token_text(m, ua, f, duration));
    lemma_round_trip(raw);
    lemma_encoded_ascii(raw);
    let t = latin(encoded(raw));
    assert forall|i: int| 0 <= i < t.len() implies t[i] as nat <= 0x7f by {
        assert(encoded(raw)[i] < 0x80);
    }
    vstd::utf8::is_ascii_chars_encode_utf8(t);
    assert(encode_utf8(t) =~= encoded(raw));
}

/// A challenge with a probe that has no value is refused, and one without a key.
pub proof fn lemma_unsealed(
    fl: FloatsV,
    r: Result<String, FlowErr>,
    m: Model,
    ua: Seq<char>,
    f: Facts,
    duration: u64,
)
    requires
        fl.sealed(r, m, ua, f, duration),
    ensures
        r is Ok <==> m.key@.len() > 0 && forall|i: int|
            0 <= i < m.probes@.len() ==> (#[trigger] m.probes@[i]).value is Some,
{
}

// ------------------------------------------------------------------------------ escaping

/// Inside a string a quote and a backslash stand behind a backslash, a control character
/// is written by its number, and every other character stands for itself.
pub proof fn lemma_escapes(c: char)
    ensures
        c == '"' ==> token_string(seq![c]) == seq!['\\', '"'],
        c == '\\' ==> token_string(seq![c]) == seq!['\\', '\\'],
        (c as u32) < 0x20 ==> token_string(seq![c]) == unit_escape(c as int),
        (c as u32) >= 0x20 && c != '"' && c != '\\' ==> token_string(seq![c]) == seq![c],
{
    reveal_strlit("\\\"");
    reveal_strlit("\\\\");
    let s = seq![c];
    assert(token_chars(s, 0) =~= seq![]);
    assert(token_chars(s, 1) =~= token_char(c));
    assert("\\\""@ =~= seq!['\\', '"']);
    assert("\\\\"@ =~= seq!['\\', '\\']);
}

proof fn lemma_escape_prefix(a: Seq<char>, b: Seq<char>, n: int)
    requires
        0 <= n <= a.len(),
    ensures
        token_chars(a + b, n) == token_chars(a, n),
    decreases n,
{
    if n > 0 {
        lemma_escape_prefix(a, b, n - 1);
        assert((a + b)[n - 1] == a[n - 1]);
    }
}

proof fn lemma_escape_rest(a: Seq<char>, b: Seq<char>, n: int)
    requires
        0 <= n <= b.len(),
    ensures
        token_chars(a + b, a.len() + n) == token_string(a) + token_chars(b, n),
    decreases n,
{
    if n > 0 {
        lemma_escape_rest(a, b, n - 1);
        assert((a + b)[a.len() + n - 1] == b[n - 1]);
        assert(token_chars(a + b, a.len() + n) =~= token_string(a) + token_chars(b, n));
    } else {
        lemma_escape_prefix(a, b, a.len() as int);
        assert(token_string(a) + token_chars(b, 0) =~= token_string(a));
    }
}

/// A text is escaped character by character.
pub proof fn lemma_escape_pieces(a: Seq<char>, b: Seq<char>)
    ensures
        token_string(a + b) == token_string(a) + token_string(b),
{
    lemma_escape_rest(a, b, b.len() as int);
}

// ------------------------------------------------------------------------- the debug text

/// The debug text of a token without signals: an opening and a closing brace, each mixed
/// with a unit of the key, so that mixing again gives the braces back.
pub proof fn lemma_debug(key: Seq<char>)
    requires
        key.len() > 0,
    ensures
        ({
            let k = utf16(key);
            let x = 0x7bu16 ^ k[0];
            let y = 0x7du16 ^ k[if k.len() > 1 { 1 } else { 0 }];
            debug_part(seq![], key) == unit_text(x) + unit_text(y)
        }),
        utf16(key).len() > 0,
{
    reveal_strlit("{");
    reveal_strlit("}");
    let none = Seq::<(Seq<char>, Seq<char>)>::empty();
    assert(signal_members(none, 0) =~= seq![]);
    let json = "{"@ + signal_members(none, none.len() as int) + "}"@;
    assert(json =~= seq!['{', '}']);
    assert('{' as u32 == 0x7b && '}' as u32 == 0x7d);
    assert(crate::text::utf16_char('{') =~= seq![0x7bu16]);
    assert(crate::text::utf16_char('}') =~= seq![0x7du16]);
    let nothing = Seq::<char>::empty();
    assert(utf16(nothing) =~= seq![]);
    let one = seq!['{'];
    assert(one.len() == 1 && one.last() == '{' && one.drop_last() =~= nothing);
    assert(utf16(one) == utf16(one.drop_last()) + crate::text::utf16_char(one.last()));
    assert(utf16(one) =~= seq![0x7bu16]);
    assert(json.last() == '}' && json.drop_last() =~= one);
    assert(utf16(json) == utf16(json.drop_last()) + crate::text::utf16_char(json.last()));
    assert(utf16(json) =~= seq![0x7bu16, 0x7du16]);
    let k = utf16(key);
    assert(k.len() > 0) by {
        assert(utf16(key) == utf16(key.drop_last()) + crate::text::utf16_char(key.last()));
    }
    let m = mixed(utf16(json), k);
    if k.len() > 1 {
        vstd::arithmetic::div_mod::lemma_small_mod(1, k.len());
    } else {
        assert(k.len() == 1);
        assert(1int % 1int == 0);
    }
    vstd::arithmetic::div_mod::lemma_small_mod(0, k.len());
    assert(unit_texts(m, 0) =~= seq![]);
    assert(unit_texts(m, 1) =~= unit_text(m[0]));
    assert(unit_texts(m, 2) =~= unit_text(m[0]) + unit_text(m[1]));
}

/// A mixed unit stands for itself unless it is a quote, a backslash or a control
/// character, which are written by their numbers, or half of a pair, which is replaced.
pub proof fn lemma_debug_units(x: u16)
    ensures
        x == 0x22 || x == 0x5c || x < 0x20 ==> unit_text(x) == unit_escape(x as int),
        0xd800 <= x <= 0xdfff ==> unit_text(x) == seq!['\u{fffd}'],
        0x20 <= x && x != 0x22 && x != 0x5c && !(0xd800 <= x <= 0xdfff) ==> unit_text(x) == seq![
            x as char,
        ],
{
}

} // verus!
