//! Tokens: the answer to a challenge.
use vstd::prelude::*;
#[allow(unused_imports)]
use vstd::utf8::encode_utf8;

#[allow(unused_imports)]
use crate::b64::{encode_string, encoded};
#[allow(unused_imports)]
use crate::floats::{FloatOps, FloatsV};
use crate::ident::seed;
use crate::jsnum::format_js_num;
use crate::pipeline::bundle::{StackFacts, Timing};
#[allow(unused_imports)]
use crate::pipeline::checks::{pair_texts, CtxV};
#[allow(unused_imports)]
use crate::pipeline::flow::{is_native, run, run_outcome, FlowErr, FlowErrV, Model};
#[allow(unused_imports)]
use crate::pipeline::mba::{node_views, simplifies, Math};
use crate::pipeline::ops::Program;
use crate::pipeline::probes::Probe;
#[allow(unused_imports)]
use crate::pipeline::sx::texts;
#[allow(unused_imports)]
use crate::sha::{digest_text, sha256_b64};
#[allow(unused_imports)]
use crate::text::{
    char_of, chars_of, dec_u64, decimal, digits, group_concat, hex_padded, is_empty, latin, own, utf16, utf16_of, zero_padded,
};

verus! {

/// What a token says about the page that it comes from.
pub struct Facts {
    pub stack: StackFacts,
    pub timing: Timing,
    pub origin: &'static str,
    pub bundle_url: String,
    /// The attributes and the globals that the checks of a challenge compare with.
    pub verify_attrs: Vec<(String, String)>,
    pub verify_globals: Vec<String>,
}

impl Facts {
    /// The facts that recorded challenges are solved with.
    pub fn fixture() -> (f: Facts)
        ensures
            f.stack.fname@ == "l"@,
            f.stack.line == 1,
            f.stack.col_error == 5,
            f.stack.col_race == 17,
            f.timing.timeout_ms == 500,
            f.timing.duration_delta == 0,
            f.timing.macrotask_zero,
            f.origin@ == "https://duck.ai"@,
            f.bundle_url@
                == "https://duck.ai/dist/duckai-dist/entry.duckai.c51e9bb9ebdb169571b0.js"@,
            f.verify_attrs@.len() == 0,
            f.verify_globals@.len() == 0,
    {
        Facts {
            stack: StackFacts { fname: own("l"), line: 1, col_error: 5, col_race: 17 },
            timing: Timing { timeout_ms: 500, duration_delta: 0, macrotask_zero: true },
            origin: "https://duck.ai",
            bundle_url: own(
                "https://duck.ai/dist/duckai-dist/entry.duckai.c51e9bb9ebdb169571b0.js",
            ),
            verify_attrs: Vec::new(),
            verify_globals: Vec::new(),
        }
    }
}

// ------------------------------------------------------------------------------ escaping

/// A number as `\u` and four hexadecimal digits.
pub open spec fn unit_escape(n: int) -> Seq<char> {
    "\\u"@ + zero_padded(digits(n as nat, 16), 4)
}

/// One character inside a string of a token.
pub open spec fn token_char(c: char) -> Seq<char> {
    if c == '"' {
        "\\\""@
    } else if c == '\\' {
        "\\\\"@
    } else if (c as u32) < 0x20 {
        unit_escape(c as u32 as int)
    } else {
        seq![c]
    }
}

/// The first `n` characters of a text inside a string of a token.
pub open spec fn token_chars(s: Seq<char>, n: int) -> Seq<char>
    decreases n,
{
    if n <= 0 || n > s.len() {
        seq![]
    } else {
        token_chars(s, n - 1) + token_char(s[n - 1])
    }
}

/// A text inside a string of a token.
pub open spec fn token_string(s: Seq<char>) -> Seq<char> {
    token_chars(s, s.len() as int)
}

/// Appends a number as `\u` and four hexadecimal digits.
pub fn push_unit(n: u32, out: &mut String)
    ensures
        final(out)@ == old(out)@ + unit_escape(n as int),
{
    broadcast use group_concat;

    out.push_str("\\u");
    let h = hex_padded(n as u64, 4);
    out.push_str(h.as_str());
}

fn esc(s: &str, out: &mut String)
    ensures
        final(out)@ == old(out)@ + token_string(s@),
{
    let v = chars_of(s);
    let mut i: usize = 0;
    assert(old(out)@ + token_chars(s@, 0) =~= old(out)@);
    while i < v.len()
        invariant
            v@ == s@,
            i <= v@.len(),
            out@ == old(out)@ + token_chars(s@, i as int),
        decreases v@.len() - i,
    {
        let c: char = v[i];
        let ghost before = out@;
        if c == '"' {
            out.push_str("\\\"");
        } else if c == '\\' {
            out.push_str("\\\\");
        } else if (c as u32) < 0x20 {
            push_unit(c as u32, out);
        } else {
            out.push(c);
        }
        assert(out@ =~= before + token_char(c));
        i += 1;
        assert(out@ =~= old(out)@ + token_chars(s@, i as int));
    }
}

// ----------------------------------------------------------------------------- debug text

/// Signals as a mathematical value.
pub open spec fn signal_views(v: Seq<(&str, &str)>) -> Seq<(Seq<char>, Seq<char>)> {
    Seq::new(v.len(), |i: int| (v[i].0@, v[i].1@))
}

/// The first `n` signals as members of a JSON object.
pub open spec fn signal_members(v: Seq<(Seq<char>, Seq<char>)>, n: int) -> Seq<char>
    decreases n,
{
    if n <= 0 || n > v.len() {
        seq![]
    } else {
        signal_members(v, n - 1) + (if n > 1 { ","@ } else { seq![] }) + "\""@ + token_string(
            v[n - 1].0,
        ) + "\":\""@ + token_string(v[n - 1].1) + "\""@
    }
}

/// Code units mixed with a key that is repeated as often as needed.
pub open spec fn mixed(units: Seq<u16>, key: Seq<u16>) -> Seq<u16> {
    Seq::new(units.len(), |i: int| units[i] ^ key[i % key.len() as int])
}

/// One mixed code unit inside a string of a token.
pub open spec fn unit_text(x: u16) -> Seq<char> {
    if x == 0x22 || x == 0x5c || x < 0x20 {
        unit_escape(x as int)
    } else if 0xd800 <= x <= 0xdfff {
        seq!['\u{fffd}']
    } else {
        seq![x as char]
    }
}

/// The first `n` mixed code units inside a string of a token.
pub open spec fn unit_texts(v: Seq<u16>, n: int) -> Seq<char>
    decreases n,
{
    if n <= 0 || n > v.len() {
        seq![]
    } else {
        unit_texts(v, n - 1) + unit_text(v[n - 1])
    }
}

/// The signals as a JSON object, mixed with the key of the challenge.
pub open spec fn debug_part(sigs: Seq<(Seq<char>, Seq<char>)>, key: Seq<char>) -> Seq<char> {
    let json = "{"@ + signal_members(sigs, sigs.len() as int) + "}"@;
    let m = mixed(utf16(json), utf16(key));
    unit_texts(m, m.len() as int)
}

/// Mixing twice with the same key gives the code units back.
pub proof fn lemma_mixed_twice(units: Seq<u16>, key: Seq<u16>)
    requires
        key.len() > 0,
    ensures
        mixed(mixed(units, key), key) == units,
{
    let m = mixed(mixed(units, key), key);
    assert forall|i: int| 0 <= i < units.len() implies m[i] == units[i] by {
        let u = units[i];
        let k = key[i % key.len() as int];
        assert((u ^ k) ^ k == u) by (bit_vector);
    }
    assert(m =~= units);
}

/// A text that is not empty has code units.
proof fn lemma_utf16_some(s: Seq<char>)
    requires
        s.len() > 0,
    ensures
        utf16(s).len() > 0,
{
}

fn xor_debug(sigs: &[(&str, &str)], key: &str, out: &mut String)
    requires
        key@.len() > 0,
    ensures
        final(out)@ == old(out)@ + debug_part(signal_views(sigs@), key@),
{
    let ghost sv = signal_views(sigs@);
    let ku = utf16_of(key);
    proof {
        lemma_utf16_some(key@);
    }
    let mut json = own("{");
    let mut i: usize = 0;
    assert("{"@ + signal_members(sv, 0) =~= "{"@);
    while i < sigs.len()
        invariant
            i <= sigs@.len(),
            sv == signal_views(sigs@),
            json@ == "{"@ + signal_members(sv, i as int),
        decreases sigs@.len() - i,
    {
        let ghost before = json@;
        if i > 0 {
            json.push_str(",");
        }
        json.push_str("\"");
        esc(sigs[i].0, &mut json);
        json.push_str("\":\"");
        esc(sigs[i].1, &mut json);
        json.push_str("\"");
        i += 1;
        assert(json@ == "{"@ + signal_members(sv, i as int)) by {
            broadcast use group_concat;

        }
    }
    json.push_str("}");
    let units = utf16_of(json.as_str());
    let ghost m = mixed(units@, ku@);
    let mut n: usize = 0;
    assert(old(out)@ + unit_texts(m, 0) =~= old(out)@);
    while n < units.len()
        invariant
            n <= units@.len(),
            ku@.len() > 0,
            m == mixed(units@, ku@),
            out@ == old(out)@ + unit_texts(m, n as int),
        decreases units@.len() - n,
    {
        let x: u16 = units[n] ^ ku[n % ku.len()];
        assert(x == m[n as int]);
        let ghost before = out@;
        if x == 0x22 || x == 0x5c || x < 0x20 {
            push_unit(x as u32, out);
        } else {
            match char_of(x as u32) {
                Some(c) => out.push(c),
                None => out.push('\u{fffd}'),
            }
        }
        assert(out@ =~= before + unit_text(x));
        n += 1;
        assert(out@ =~= old(out)@ + unit_texts(m, n as int));
    }
    assert(sv.len() == sigs@.len());
}

// --------------------------------------------------------------------------------- tokens

/// The first `n` hashes of the server, in quotes.
pub open spec fn hash_list(v: Seq<Seq<char>>, n: int) -> Seq<char>
    decreases n,
{
    if n <= 0 || n > v.len() {
        seq![]
    } else {
        hash_list(v, n - 1) + (if n > 1 { ","@ } else { seq![] }) + "\""@ + token_string(v[n - 1])
            + "\""@
    }
}

/// Every probe has a value.
pub open spec fn all_solved(v: Seq<Probe>) -> bool {
    forall|i: int| 0 <= i < v.len() ==> (#[trigger] v[i]).value is Some
}

/// Where a frame of the stack stands.
pub open spec fn location(url: Seq<char>, line: u64, col: u64) -> Seq<char> {
    url + ":"@ + decimal(line as nat) + ":"@ + decimal(col as nat)
}

/// The stack that a token reports.
pub open spec fn stack_part(f: Facts) -> Seq<char> {
    "Error\\n    at "@ + f.stack.fname@ + " ("@ + location(
        f.bundle_url@,
        f.stack.line,
        f.stack.col_error,
    ) + ")\\n    at async "@ + location(f.bundle_url@, f.stack.line, f.stack.col_race)
}

/// The second part of a token: what it says about itself and its page.
pub open spec fn meta_part(m: Model, f: Facts, duration: u64) -> Seq<char> {
    "],\"signals\":{},\"meta\":{\"v\":\""@ + m.v@ + "\",\"challenge_id\":\""@ + m.challenge_id@
        + "\",\"timestamp\":\""@ + m.timestamp@ + "\",\"debug\":\""@ + debug_part(seq![], m.key@)
        + "\",\"origin\":\""@ + f.origin@ + "\",\"stack\":\""@ + stack_part(f)
        + "\",\"duration\":\""@ + decimal(duration as nat) + "\"}}"@
}

impl FloatsV {
    /// The digests of the values of the first `n` probes, in quotes.
    pub open spec fn probe_hashes(&self, v: Seq<Probe>, n: int) -> Seq<char>
        decreases n,
    {
        if n <= 0 || n > v.len() {
            seq![]
        } else {
            self.probe_hashes(v, n - 1) + ",\""@ + digest_text(
                encode_utf8(self.num_text(v[n - 1].value->0)),
            ) + "\""@
        }
    }

    /// The text of the token for a challenge whose probes are all solved.
    pub open spec fn token_text(&self, m: Model, ua: Seq<char>, f: Facts, duration: u64) -> Seq<
        char,
    > {
        "{\"server_hashes\":["@ + hash_list(
            texts(m.server_hashes@),
            m.server_hashes@.len() as int,
        ) + "],\"client_hashes\":[\""@ + digest_text(encode_utf8(ua)) + "\""@ + self.probe_hashes(
            m.probes@,
            m.probes@.len() as int,
        ) + meta_part(m, f, duration)
    }

    /// `r` is the token for a challenge: the text in base64. There is none where a
    /// probe has no value, and where the key is empty.
    pub open spec fn sealed(
        &self,
        r: Result<String, FlowErr>,
        m: Model,
        ua: Seq<char>,
        f: Facts,
        duration: u64,
    ) -> bool {
        let raw = encode_utf8(self.token_text(m, ua, f, duration));
        if !all_solved(m.probes@) {
            r matches Err(e) && e@ == FlowErrV::Read("проба не решается структурно"@)
        } else if m.key@.len() == 0 {
            r matches Err(e) && e@ == FlowErrV::Payload("пустой ключ"@)
        } else {
            r matches Ok(s) && s@ == latin(encoded(raw))
        }
    }
}

fn push_hashes(v: &Vec<String>, out: &mut String)
    ensures
        final(out)@ == old(out)@ + hash_list(texts(v@), v@.len() as int),
{
    let ghost t = texts(v@);
    let mut i: usize = 0;
    assert(old(out)@ + hash_list(t, 0) =~= old(out)@);
    while i < v.len()
        invariant
            i <= v@.len(),
            t == texts(v@),
            out@ == old(out)@ + hash_list(t, i as int),
        decreases v@.len() - i,
    {
        if i > 0 {
            out.push_str(",");
        }
        out.push_str("\"");
        esc(v[i].as_str(), out);
        out.push_str("\"");
        i += 1;
        assert(out@ == old(out)@ + hash_list(t, i as int)) by {
            broadcast use group_concat;

            assert(t[i - 1] == v@[i - 1]@);
        }
    }
}

fn push_probe_hashes<F: FloatOps>(v: &Vec<Probe>, out: &mut String, fl: &F) -> (ok: bool)
    requires
        fl.ok(),
    ensures
        ok == all_solved(v@),
        ok ==> final(out)@ == old(out)@ + fl.model().probe_hashes(v@, v@.len() as int),
{
    let mut i: usize = 0;
    assert(old(out)@ + fl.model().probe_hashes(v@, 0) =~= old(out)@);
    while i < v.len()
        invariant
            i <= v@.len(),
            fl.ok(),
            forall|k: int| 0 <= k < i ==> (#[trigger] v@[k]).value is Some,
            out@ == old(out)@ + fl.model().probe_hashes(v@, i as int),
        decreases v@.len() - i,
    {
        let x: u64 = match v[i].value {
            Some(x) => x,
            None => {
                assert(v@[i as int].value is None);
                return false;
            },
        };
        let num = format_js_num(x, fl);
        let d = sha256_b64(num.as_str().as_bytes());
        out.push_str(",\"");
        out.push_str(d.as_str());
        out.push_str("\"");
        i += 1;
        assert(out@ == old(out)@ + fl.model().probe_hashes(v@, i as int)) by {
            broadcast use group_concat;

        }
    }
    true
}

fn push_location(url: &str, line: u64, col: u64, out: &mut String)
    ensures
        final(out)@ == old(out)@ + location(url@, line, col),
{
    broadcast use group_concat;

    out.push_str(url);
    out.push_str(":");
    out.push_str(dec_u64(line).as_str());
    out.push_str(":");
    out.push_str(dec_u64(col).as_str());
}

fn push_stack(f: &Facts, out: &mut String)
    ensures
        final(out)@ == old(out)@ + stack_part(*f),
{
    broadcast use group_concat;

    out.push_str("Error\\n    at ");
    out.push_str(f.stack.fname.as_str());
    out.push_str(" (");
    push_location(f.bundle_url.as_str(), f.stack.line, f.stack.col_error, out);
    out.push_str(")\\n    at async ");
    push_location(f.bundle_url.as_str(), f.stack.line, f.stack.col_race, out);
}

fn push_meta(m: &Model, f: &Facts, duration: u64, out: &mut String)
    requires
        m.key@.len() > 0,
    ensures
        final(out)@ == old(out)@ + meta_part(*m, *f, duration),
{
    broadcast use group_concat;

    out.push_str("],\"signals\":{},\"meta\":{\"v\":\"");
    out.push_str(m.v.as_str());
    out.push_str("\",\"challenge_id\":\"");
    out.push_str(m.challenge_id.as_str());
    out.push_str("\",\"timestamp\":\"");
    out.push_str(m.timestamp.as_str());
    out.push_str("\",\"debug\":\"");
    let none: Vec<(&str, &str)> = Vec::new();
    assert(signal_views(none@) =~= seq![]);
    xor_debug(none.as_slice(), m.key.as_str(), out);
    out.push_str("\",\"origin\":\"");
    out.push_str(f.origin);
    out.push_str("\",\"stack\":\"");
    push_stack(f, out);
    out.push_str("\",\"duration\":\"");
    out.push_str(dec_u64(duration).as_str());
    out.push_str("\"}}");
}

fn push_head(m: &Model, ua: &str, out: &mut String)
    ensures
        final(out)@ == old(out)@ + "{\"server_hashes\":["@ + hash_list(
            texts(m.server_hashes@),
            m.server_hashes@.len() as int,
        ) + "],\"client_hashes\":[\""@ + digest_text(encode_utf8(ua@)) + "\""@,
{
    out.push_str("{\"server_hashes\":[");
    push_hashes(&m.server_hashes, out);
    out.push_str("],\"client_hashes\":[\"");
    out.push_str(sha256_b64(ua.as_bytes()).as_str());
    out.push_str("\"");
}

/// Makes the token for a modelled challenge.
pub fn seal<F: FloatOps>(m: &Model, ua: &str, facts: &Facts, duration: u64, fl: &F) -> (r: Result<
    String,
    FlowErr,
>)
    requires
        fl.ok(),
    ensures
        fl.model().sealed(r, *m, ua@, *facts, duration),
{
    let mut p = String::new();
    push_head(m, ua, &mut p);
    if !push_probe_hashes(&m.probes, &mut p, fl) {
        return Err(FlowErr::Read(own("проба не решается структурно")));
    }
    if is_empty(m.key.as_str()) {
        return Err(FlowErr::Payload(own("пустой ключ")));
    }
    push_meta(m, facts, duration, &mut p);
    assert(p@ == fl.model().token_text(*m, ua@, *facts, duration)) by {
        assert(Seq::<char>::empty() + "{\"server_hashes\":["@ =~= "{\"server_hashes\":["@);
    }
    Ok(encode_string(p.as_str().as_bytes()))
}

/// `r` is what solving the challenge `js` comes to: its model, brought out by the
/// caller's simplifier and native code, and the token for that.
pub open spec fn token_outcome<S, N>(
    fl: FloatsV,
    r: Result<String, FlowErr>,
    js: Seq<char>,
    ua: Seq<char>,
    facts: Facts,
    duration: u64,
    simplifier: S,
    native: N,
) -> bool where
    S: Fn(&Vec<Math>) -> (Vec<Math>, String),
    N: Fn(u64, &Program, &Vec<u64>) -> Option<u64>,
 {
    match fl.prepared_source(js) {
        Err(e) => r matches Err(x) && x@ == e,
        Ok(p) => exists|v: &Vec<Math>, c: (Vec<Math>, String), m: Result<Model, FlowErr>|
            node_views(v@) == p.t.nodes && #[trigger] call_ensures(simplifier, (v,), c)
                && #[trigger] run_outcome(
                fl,
                m,
                p,
                c,
                native,
                CtxV {
                    attached_styled: false,
                    attrs: pair_texts(facts.verify_attrs@),
                    globals: texts(facts.verify_globals@),
                },
            ) && match m {
                Ok(m) => fl.sealed(r, m, ua, facts, duration),
                Err(e) => r matches Err(x) && x@ == e@,
            },
    }
}

/// Solves a challenge: models it and makes its token.
pub fn token<F, S, N>(
    js: &str,
    ua: &str,
    facts: &Facts,
    duration: u64,
    fl: &F,
    simplifier: &S,
    native: &N,
) -> (r: Result<String, FlowErr>) where
    F: FloatOps,
    S: Fn(&Vec<Math>) -> (Vec<Math>, String),
    N: Fn(u64, &Program, &Vec<u64>) -> Option<u64>,

    requires
        fl.ok(),
        simplifies(*simplifier),
        is_native(*native),
    ensures
        token_outcome(fl.model(), r, js@, ua@, *facts, duration, *simplifier, *native),
{
    match run(
        js,
        facts.verify_attrs.as_slice(),
        facts.verify_globals.as_slice(),
        fl,
        simplifier,
        native,
    ) {
        Ok(m) => seal(&m, ua, facts, duration, fl),
        Err(e) => Err(e),
    }
}

// ------------------------------------------------------------------------- random numbers

/// A seed for [`sample_u64`] out of eight random bytes; a fixed one where there are
/// none.
pub fn seed_rng(entropy: Option<[u8; 8]>) -> (r: u64)
    ensures
        match entropy {
            Some(b) => r == b@[0] + 0x100 * b@[1] + 0x1_0000 * b@[2] + 0x100_0000 * b@[3]
                + 0x1_0000_0000 * b@[4] + 0x100_0000_0000 * b@[5] + 0x1_0000_0000_0000 * b@[6]
                + 0x100_0000_0000_0000 * b@[7],
            None => r == 0x9E37_79B9_7F4A_7C15,
        },
{
    seed(entropy)
}

/// The state of the generator after `x`.
pub open spec fn next_state(x: u64) -> u64 {
    let a = x ^ (x << 13u64);
    let b = a ^ (a >> 7u64);
    b ^ (b << 17u64)
}

/// Draws a number below `span` and moves the generator on; zero, with the generator
/// left alone, where there is no such number.
pub fn sample_u64(rng: &mut u64, span: u64) -> (r: u64)
    ensures
        span == 0 ==> r == 0 && *final(rng) == *old(rng),
        span > 0 ==> r == next_state(*old(rng)) % span && *final(rng) == next_state(*old(rng)) && r
            < span,
{
    if span == 0 {
        return 0;
    }
    let x: u64 = *rng;
    let a: u64 = x ^ (x << 13u64);
    let b: u64 = a ^ (a >> 7u64);
    let c: u64 = b ^ (b << 17u64);
    *rng = c;
    c % span
}

/// The generator never runs into zero, where it would stay, and two states never
/// meet.
pub proof fn lemma_generator(x: u64, y: u64)
    ensures
        next_state(x) == 0 ==> x == 0,
        next_state(x) == next_state(y) ==> x == y,
{
    let a = x ^ (x << 13u64);
    let b = a ^ (a >> 7u64);
    let a2 = y ^ (y << 13u64);
    let b2 = a2 ^ (a2 >> 7u64);
    assert(b ^ (b << 17u64) == b2 ^ (b2 << 17u64) ==> b == b2) by (bit_vector);
    assert(a ^ (a >> 7u64) == a2 ^ (a2 >> 7u64) ==> a == a2) by (bit_vector);
    assert(x ^ (x << 13u64) == y ^ (y << 13u64) ==> x == y) by (bit_vector);
    assert(b ^ (b << 17u64) == 0 ==> b == 0) by (bit_vector);
    assert(a ^ (a >> 7u64) == 0 ==> a == 0) by (bit_vector);
    assert(x ^ (x << 13u64) == 0 ==> x == 0) by (bit_vector);
}

} // verus!
