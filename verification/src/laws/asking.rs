//! What is asked of the server and read out of its answers: headers, pages, event streams
//! and the frames in them.
use vstd::prelude::*;
#[allow(unused_imports)]
use vstd::utf8::encode_utf8;

#[allow(unused_imports)]
use crate::err::NetV;
#[allow(unused_imports)]
use crate::net::{
    alphanumeric, attr_text, bundle_hash, challenge_text, data_of, eol_free, events, header_at,
    header_value, page_facts, run_end, same_name, space_free, version,
};
#[allow(unused_imports)]
use crate::request::{beyond_profile, name_at, profile_names, script_url, wire_order, written_as};
#[allow(unused_imports)]
use crate::text::{
    ascii_lower, eq_ignore_case, lemma_next_item, next_at, next_item, occurs_at, utf8_lossy_text,
};
#[allow(unused_imports)]
use crate::wire::{
    body_json, byte_at, closing_quote, field, field_bytes, frame, hex_number, hex_value, marker,
    message_json, message_list, opening, past_blanks, short_escape, stripped, text_of, unescaped,
    unicode_at, value_at, wire_byte, wire_bytes, EvV, WireMsg,
};

verus! {

// ------------------------------------------------------------------------------- searching

/// What is searched for is found at its first place.
pub proof fn lemma_search<T>(b: Seq<T>, needle: Seq<T>, from: int)
    requires
        0 <= from,
    ensures
        next_at(b, needle, from) matches Some(p) ==> from <= p && p + needle.len() <= b.len() && (
        forall|i: int| 0 <= i < needle.len() ==> #[trigger] b[p + i] == needle[i]) && forall|j: int|
            from <= j < p ==> !(#[trigger] occurs_at(b, needle, j)),
        next_at(b, needle, from) is None ==> forall|j: int|
            from <= j ==> !(#[trigger] occurs_at(b, needle, j)),
    decreases b.len() + 1 - from,
{
    if from <= b.len() {
        if occurs_at(b, needle, from) {
            let t = b.subrange(from, from + needle.len());
            assert forall|i: int| 0 <= i < needle.len() implies #[trigger] b[from + i] == needle[i] by {
                assert(t[i] == b[from + i]);
            }
        } else {
            lemma_search(b, needle, from + 1);
        }
    }
}

/// The letters of ASCII are the same whatever their case; any other byte is only itself.
pub proof fn lemma_case(a: u8, b: u8)
    ensures
        0x41 <= a <= 0x5a ==> ascii_lower(a) == a + 0x20 && ascii_lower((a + 0x20) as u8) == a + 0x20,
        !(0x41 <= a <= 0x5a) ==> ascii_lower(a) == a,
        eq_ignore_case(seq![a], seq![b]) <==> a == b || (0x41 <= a <= 0x5a && b == a + 0x20) || (0x41
            <= b <= 0x5a && a == b + 0x20),
{
    let (x, y) = (seq![a], seq![b]);
    assert(x[0] == a && y[0] == b);
    if ascii_lower(a) == ascii_lower(b) {
        assert forall|i: int| 0 <= i < x.len() implies ascii_lower(#[trigger] x[i]) == ascii_lower(
            y[i],
        ) by {}
    }
}

/// The value of a header is that of the first one with its name.
pub proof fn lemma_header(h: Seq<(String, String)>, name: Seq<char>, i: int)
    requires
        0 <= i <= h.len(),
    ensures
        header_at(h, name, i) matches Some(k) ==> i <= k < h.len() && eq_ignore_case(
            encode_utf8(h[k].0@),
            encode_utf8(name),
        ) && forall|j: int| i <= j < k ==> !same_name((#[trigger] h[j]).0@, name),
        header_at(h, name, i) is None ==> forall|j: int|
            i <= j < h.len() ==> !same_name((#[trigger] h[j]).0@, name),
        header_value(h, name) is Some <==> header_at(h, name, 0) is Some,
        header_at(h, name, 0) matches Some(k) ==> header_value(h, name) == Some(h[k].1@),
    decreases h.len() - i,
{
    if i < h.len() && !same_name(h[i].0@, name) {
        lemma_header(h, name, i + 1);
    }
}

// ---------------------------------------------------------------------------------- a page

/// The version of the front end: its tag and its hash, or a word where one is missing.
pub proof fn lemma_version(tag: Seq<char>, sha: Seq<char>)
    requires
        tag.len() > 0,
        sha.len() > 0,
    ensures
        version(tag, sha) == tag + "-"@ + sha,
        version(seq![], sha) == "dev"@ + "-"@ + sha,
        version(tag, seq![]) == tag + "-"@ + "hash"@,
{
}

/// The text of an attribute runs from behind its name to the next quote.
pub proof fn lemma_attribute(a: Seq<u8>, needle: Seq<u8>, v: Seq<u8>, b: Seq<u8>)
    requires
        next_at(a + needle + v + seq![0x22u8] + b, needle, 0) == Some(a.len() as int),
        forall|i: int| 0 <= i < v.len() ==> #[trigger] v[i] != 0x22,
    ensures
        attr_text(a + needle + v + seq![0x22u8] + b, needle) == utf8_lossy_text(v),
{
    let s = a + needle + v + seq![0x22u8] + b;
    let start = (a.len() + needle.len()) as int;
    let end = start + v.len();
    assert(s[end] == 0x22);
    assert forall|i: int| start <= i < end implies #[trigger] s[i] != 0x22 by {
        assert(s[i] == v[i - start]);
    }
    lemma_next_byte(s, 0x22, start, end);
    assert(s.subrange(start, end) =~= v);
}

proof fn lemma_next_byte(s: Seq<u8>, c: u8, i: int, e: int)
    requires
        0 <= i <= e < s.len(),
        s[e] == c,
        forall|j: int| i <= j < e ==> #[trigger] s[j] != c,
    ensures
        next_item(s, c, i) == Some(e),
    decreases e - i,
{
    if i < e {
        assert(s[i] != c);
        lemma_next_byte(s, c, i + 1, e);
    }
}

/// A run of letters and digits ends at the first byte that is neither.
pub proof fn lemma_run(b: Seq<u8>, i: int)
    requires
        0 <= i <= b.len(),
    ensures
        i <= run_end(b, i) <= b.len(),
        forall|j: int|
            i <= j < run_end(b, i) ==> 0x30 <= #[trigger] b[j] <= 0x39 || 0x41 <= b[j] <= 0x5a || 0x61
                <= b[j] <= 0x7a,
        run_end(b, i) < b.len() ==> ({
            let c = b[run_end(b, i)];
            !(0x30 <= c <= 0x39) && !(0x41 <= c <= 0x5a) && !(0x61 <= c <= 0x7a)
        }),
    decreases b.len() - i,
{
    if i < b.len() && alphanumeric(b[i]) {
        lemma_run(b, i + 1);
    }
}

/// The hash of the script: the letters and digits behind the next `entry.duckai.`, where
/// they are at least sixteen and `.js` follows; otherwise the search goes on behind it.
pub proof fn lemma_script_hash(html: Seq<u8>, i: int, p: int)
    requires
        0 <= i <= html.len(),
        next_at(html, encode_utf8("entry.duckai."@), i) == Some(p),
        encode_utf8("entry.duckai."@).len() > 0,
    ensures
        ({
            let start = p + encode_utf8("entry.duckai."@).len();
            let end = run_end(html, start);
            &&& end - start >= 16 && occurs_at(html, encode_utf8(".js"@), end) ==> bundle_hash(
                html,
                i,
            ) == Some(utf8_lossy_text(html.subrange(start, end)))
            &&& !(end - start >= 16 && occurs_at(html, encode_utf8(".js"@), end)) ==> bundle_hash(
                html,
                i,
            ) == bundle_hash(html, start)
        }),
{
    lemma_search(html, encode_utf8("entry.duckai."@), i);
}

/// A page without the name of a script has no hash.
pub proof fn lemma_no_script(html: Seq<u8>, i: int)
    requires
        next_at(html, encode_utf8("entry.duckai."@), i) is None,
    ensures
        bundle_hash(html, i) is None,
{
}

/// What a page says: it is refused for its status first, then for a script that is missing,
/// then for a version that is missing.
pub proof fn lemma_page(status: u16, body: Seq<u8>)
    ensures
        ({
            let tag = attr_text(body, encode_utf8("data-version-tag=\""@));
            let sha = attr_text(body, encode_utf8("data-version-sha=\""@));
            let r = page_facts(status, body);
            &&& status != 200 ==> r == Err::<(Seq<char>, Seq<char>, Seq<char>), NetV>(
                NetV::Status { ctx: "duck.ai HTML"@, status },
            )
            &&& status == 200 && bundle_hash(body, 0) is None ==> r == Err::<
                (Seq<char>, Seq<char>, Seq<char>),
                NetV,
            >(NetV::Empty("entry.duckai.<hash>.js не найден в HTML"@))
            &&& status == 200 && bundle_hash(body, 0) is Some && (tag.len() == 0 || sha.len() == 0)
                ==> r == Err::<(Seq<char>, Seq<char>, Seq<char>), NetV>(
                NetV::Empty("data-version-tag/sha не найдены"@),
            )
            &&& status == 200 && bundle_hash(body, 0) is Some && tag.len() > 0 && sha.len() > 0
                ==> r == Ok::<(Seq<char>, Seq<char>, Seq<char>), NetV>(
                (tag, sha, bundle_hash(body, 0)->0),
            )
        }),
{
}

/// The challenge of an answer stands in its header `x-vqd-hash-1`.
pub proof fn lemma_challenge(status: u16, h: Seq<(String, String)>)
    ensures
        status == 200 && header_value(h, "x-vqd-hash-1"@) is Some ==> challenge_text(status, h)
            == Ok::<Seq<char>, NetV>(header_value(h, "x-vqd-hash-1"@)->0),
        status == 200 && header_value(h, "x-vqd-hash-1"@) is None ==> challenge_text(status, h)
            == Err::<Seq<char>, NetV>(NetV::RespHeader("x-vqd-hash-1"@)),
        status != 200 ==> challenge_text(status, h) == Err::<Seq<char>, NetV>(
            NetV::Status { ctx: "status"@, status },
        ),
{
}

// --------------------------------------------------------------------------- event streams

/// Line ends are taken off the end of a line, all of them, and nothing else.
pub proof fn lemma_line_end(s: Seq<u8>)
    ensures
        eol_free(s).len() <= s.len(),
        eol_free(s) == s.take(eol_free(s).len() as int),
        forall|i: int|
            eol_free(s).len() <= i < s.len() ==> #[trigger] s[i] == 0x0d || s[i] == 0x0a,
        eol_free(s).len() > 0 ==> eol_free(s).last() != 0x0d && eol_free(s).last() != 0x0a,
    decreases s.len(),
{
    if s.len() > 0 && (s.last() == 0x0d || s.last() == 0x0a) {
        let t = s.drop_last();
        lemma_line_end(t);
        assert(t.take(eol_free(t).len() as int) =~= s.take(eol_free(t).len() as int));
        assert forall|i: int| eol_free(s).len() <= i < s.len() implies #[trigger] s[i] == 0x0d || s[i]
            == 0x0a by {
            if i < t.len() {
                assert(t[i] == s[i]);
            }
        }
    } else {
        assert(s.take(s.len() as int) =~= s);
    }
}

/// Spaces are taken off the start, all of them, and nothing else.
pub proof fn lemma_leading_spaces(s: Seq<u8>)
    ensures
        space_free(s).len() <= s.len(),
        space_free(s) == s.skip(s.len() - space_free(s).len()),
        forall|i: int| 0 <= i < s.len() - space_free(s).len() ==> #[trigger] s[i] == 0x20,
        space_free(s).len() > 0 ==> space_free(s)[0] != 0x20,
    decreases s.len(),
{
    if s.len() > 0 && s[0] == 0x20 {
        let t = s.skip(1);
        lemma_leading_spaces(t);
        let n = t.len() - space_free(t).len();
        assert(t.skip(n) =~= s.skip(n + 1));
        assert forall|i: int| 0 <= i < s.len() - space_free(s).len() implies #[trigger] s[i]
            == 0x20 by {
            if i > 0 {
                assert(t[i - 1] == s[i]);
            }
        }
    } else {
        assert(s.skip(0) =~= s);
    }
}

/// A line of a stream has data where it starts with `data:`.
pub proof fn lemma_data(line: Seq<u8>)
    ensures
        data_of(line) is Some <==> eol_free(line).len() >= 5 && eol_free(line).take(5) == seq![
            0x64u8,
            0x61u8,
            0x74u8,
            0x61u8,
            0x3au8,
        ],
        data_of(line) matches Some(d) ==> d == space_free(eol_free(line).skip(5)),
{
    let t = eol_free(line);
    let key = encode_utf8("data:"@);
    lemma_data_key();
    if t.len() >= 5 {
        assert(t.take(5) =~= t.subrange(0, 5));
    }
}

proof fn lemma_data_key()
    ensures
        encode_utf8("data:"@) == seq![0x64u8, 0x61u8, 0x74u8, 0x61u8, 0x3au8],
{
    reveal_strlit("data:");
    let s = "data:"@;
    vstd::utf8::is_ascii_chars_encode_utf8(s);
    assert(encode_utf8(s) =~= seq![0x64u8, 0x61u8, 0x74u8, 0x61u8, 0x3au8]);
}

// ----------------------------------------------------------------------------- requests

/// The address of a script.
pub proof fn lemma_script_address(hash: Seq<char>)
    ensures
        script_url(hash) == "https://duck.ai/dist/duckai-dist/entry.duckai."@ + hash + ".js"@,
{
}

/// The names that the profile sends, in their order.
pub proof fn lemma_profile()
    ensures
        profile_names().len() == 12,
        profile_names()[0] == "sec-ch-ua"@,
        profile_names()[1] == "sec-ch-ua-mobile"@,
        profile_names()[2] == "sec-ch-ua-platform"@,
        profile_names()[3] == "upgrade-insecure-requests"@,
        profile_names()[4] == "user-agent"@,
        profile_names()[5] == "accept"@,
        profile_names()[6] == "sec-fetch-site"@,
        profile_names()[7] == "sec-fetch-mode"@,
        profile_names()[8] == "sec-fetch-user"@,
        profile_names()[9] == "sec-fetch-dest"@,
        profile_names()[10] == "accept-language"@,
        profile_names()[11] == "priority"@,
{
}

/// A header of the profile is written as the first header of the request with its name is;
/// the user agent in capitals where another one was asked for; otherwise as it stands.
pub proof fn lemma_written(own: Seq<Seq<char>>, overridden: bool, name: Seq<char>)
    ensures
        name_at(own, name, 0) matches Some(i) ==> written_as(own, overridden, name) == own[i],
        name_at(own, name, 0) is None && name == "user-agent"@ ==> written_as(own, true, name)
            == "User-Agent"@,
        name_at(own, name, 0) is None ==> written_as(own, false, name) == name,
        name_at(own, name, 0) is None && name != "user-agent"@ ==> written_as(own, true, name)
            == name,
{
}

/// A name is found at its first place, whatever the case of its letters.
pub proof fn lemma_name_place(v: Seq<Seq<char>>, name: Seq<char>, i: int)
    requires
        0 <= i <= v.len(),
    ensures
        name_at(v, name, i) matches Some(k) ==> i <= k < v.len() && same_name(v[k], name) && forall|
            j: int,
        | i <= j < k ==> !same_name(#[trigger] v[j], name),
        name_at(v, name, i) is None ==> forall|j: int|
            i <= j < v.len() ==> !same_name(#[trigger] v[j], name),
    decreases v.len() - i,
{
    if i < v.len() && !same_name(v[i], name) {
        lemma_name_place(v, name, i + 1);
    }
}

/// Behind the names of the profile come the other names of the request, in their order.
pub proof fn lemma_beyond(own: Seq<Seq<char>>, overridden: bool, n: int)
    requires
        0 <= n < own.len(),
    ensures
        beyond_profile(own, 0) == Seq::<Seq<char>>::empty(),
        (forall|j: int| 0 <= j < profile_names().len() ==> !same_name(#[trigger] profile_names()[j], own[n]))
            ==> beyond_profile(own, n + 1) == beyond_profile(own, n).push(own[n]),
        (exists|j: int| 0 <= j < profile_names().len() && same_name(#[trigger] profile_names()[j], own[n]))
            ==> beyond_profile(own, n + 1) == beyond_profile(own, n),
        wire_order(own, overridden).skip(profile_names().len() as int) == beyond_profile(
            own,
            own.len() as int,
        ),
{
    lemma_name_place(profile_names(), own[n], 0);
    assert(beyond_profile(own, n) + seq![own[n]] =~= beyond_profile(own, n).push(own[n]));
    assert(beyond_profile(own, n) + Seq::<Seq<char>>::empty() =~= beyond_profile(own, n));
    assert(wire_order(own, overridden).skip(profile_names().len() as int) =~= beyond_profile(
        own,
        own.len() as int,
    ));
}

// ------------------------------------------------------------------------------- messages

/// What a request writes for a byte: quotes, backslashes and the common controls get a
/// letter behind a backslash, and anything from the space on stays.
pub proof fn lemma_written_bytes(b: u8)
    ensures
        wire_byte(0x22) == seq![0x5cu8, 0x22u8],
        wire_byte(0x5c) == seq![0x5cu8, 0x5cu8],
        wire_byte(0x0a) == seq![0x5cu8, 0x6eu8],
        wire_byte(0x0d) == seq![0x5cu8, 0x72u8],
        wire_byte(0x09) == seq![0x5cu8, 0x74u8],
        b >= 0x20 && b != 0x22 && b != 0x5c ==> wire_byte(b) == seq![b],
        wire_bytes(seq![]) == Seq::<u8>::empty(),
{
}

/// Bytes are written in their order.
pub proof fn lemma_written_order(a: Seq<u8>, b: u8)
    ensures
        wire_bytes(a.push(b)) == wire_bytes(a) + wire_byte(b),
{
    assert(a.push(b).drop_last() =~= a);
}

/// How a message opens: the user's has its text as content, any other has it as a part.
pub proof fn lemma_opening(role: Seq<char>)
    ensures
        opening("user"@) == encode_utf8(
            "{\"role\":\"user\",\"content\":[{\"type\":\"text\",\"text\":\""@,
        ),
        role != "user"@ ==> opening(role) == encode_utf8("{\"role\":\""@) + encode_utf8(role)
            + encode_utf8("\",\"content\":\"\",\"parts\":[{\"type\":\"text\",\"text\":\""@),
{
}

/// Messages stand in their order, with commas between them and nowhere else.
pub proof fn lemma_message_order(v: Seq<WireMsg>, id: Seq<u8>, n: int)
    requires
        0 <= n < v.len(),
    ensures
        message_list(v, id, 0) == Seq::<u8>::empty(),
        message_list(v, id, 1) == message_json(v[0], id),
        n > 0 ==> message_list(v, id, n + 1) == message_list(v, id, n) + encode_utf8(","@)
            + message_json(v[n], id),
        message_json(v[n], id) == opening(v[n].role@) + wire_bytes(encode_utf8(v[n].text@))
            + encode_utf8("\"}],\"windowID\":\""@) + id + encode_utf8("\"}"@),
{
}

/// The body of a request names the model first, then its messages, and last how much it is
/// to reason; no search is chosen, and nothing is uploaded or located.
pub proof fn lemma_body(model: Seq<char>, effort: Seq<char>, v: Seq<WireMsg>, id: Seq<u8>)
    ensures
        body_json(model, effort, v, id) == encode_utf8("{\"model\":\""@) + encode_utf8(model)
            + encode_utf8(
            "\",\"metadata\":{\"toolChoice\":{\"NewsSearch\":false,\"VideosSearch\":false,\"LocalSearch\":false,\"WeatherForecast\":false}},\"messages\":["@,
        ) + message_list(v, id, v.len() as int) + encode_utf8(
            "],\"canUseTools\":true,\"reasoningEffort\":\""@,
        ) + encode_utf8(effort) + encode_utf8(
            "\",\"canUseApproxLocation\":null,\"canDelegateImageGeneration\":false,\"canUseWebSearch\":false,\"canUploadFiles\":false,\"canShowGreeting\":false}"@,
        ),
{
}

/// The digits of a hexadecimal number, in either case.
pub proof fn lemma_hex_digits(b: u8)
    ensures
        0x30 <= b <= 0x39 ==> hex_value(Some(b)) == b - 0x30,
        0x61 <= b <= 0x66 ==> hex_value(Some(b)) == b - 0x61 + 10,
        0x41 <= b <= 0x46 ==> hex_value(Some(b)) == b - 0x41 + 10,
        !(0x30 <= b <= 0x39) && !(0x61 <= b <= 0x66) && !(0x41 <= b <= 0x46) ==> hex_value(Some(b))
            == 255,
        hex_value(None) == 255,
{
}

/// The escapes of two characters.
pub proof fn lemma_short_escapes(b: u8)
    ensures
        short_escape(Some(0x22)) == 0x22,
        short_escape(Some(0x5c)) == 0x5c,
        short_escape(Some(0x2f)) == 0x2f,
        short_escape(Some(0x62)) == 0x08,
        short_escape(Some(0x66)) == 0x0c,
        short_escape(Some(0x6e)) == 0x0a,
        short_escape(Some(0x72)) == 0x0d,
        short_escape(Some(0x74)) == 0x09,
        short_escape(None) == 0x5c,
        b != 0x22 && b != 0x5c && b != 0x2f && b != 0x62 && b != 0x66 && b != 0x6e && b != 0x72 && b
            != 0x74 ==> short_escape(Some(b)) == 0x5c,
{
}

/// A code of four digits: the character with that number, or, where it is half of a pair,
/// the character of the pair; a half without its other half is replaced.
pub proof fn lemma_unicode_escapes(raw: Seq<u8>, i: int)
    ensures
        ({
            let high = hex_number(raw, i + 2, 4);
            let low = hex_number(raw, i + 8, 4);
            let paired = byte_at(raw, i + 6) == Some(0x5cu8) && byte_at(raw, i + 7) == Some(0x75u8)
                && 0xdc00 <= low <= 0xdfff;
            &&& high < 0xd800 || high > 0xdfff ==> unicode_at(raw, i) == (high as char, i + 6)
            &&& 0xdc00 <= high <= 0xdfff ==> unicode_at(raw, i) == ('\u{fffd}', i + 6)
            &&& 0xd800 <= high <= 0xdbff && !paired ==> unicode_at(raw, i) == ('\u{fffd}', i + 6)
            &&& 0xd800 <= high <= 0xdbff && paired ==> unicode_at(raw, i).0 == (0x10000 + (high
                - 0xd800) * 0x400 + (low - 0xdc00)) as char
        }),
{
}

/// A frame that is empty or says so is the last one; another one in square brackets says
/// nothing; one with a message is a part of the answer; one of the role `reasoning` is a
/// part of the reasoning; and one of another role says nothing.
pub proof fn lemma_frames(line: Seq<u8>)
    requires
        line != encode_utf8("[DONE]"@),
    ensures
        frame(encode_utf8("[DONE]"@)) == Some(EvV::Done),
        frame(seq![]) == Some(EvV::Done),
        line.len() > 0 && line[0] == 0x5b ==> frame(line) is None,
        line.len() > 0 && line[0] != 0x5b ==> ({
            let m = field_bytes(line, "message"@);
            let t = field_bytes(line, "text"@);
            let reasoning = field_bytes(line, "role"@) == Some(encode_utf8("reasoning"@));
            &&& m is Some && text_of(m->0) is Some ==> frame(line) == Some(
                EvV::Part(text_of(m->0)->0),
            )
            &&& m is Some && text_of(m->0) is None ==> frame(line) is None
            &&& m is None && reasoning && t is Some && text_of(t->0) is Some ==> frame(line) == Some(
                EvV::Reasoning(text_of(t->0)->0),
            )
            &&& m is None && (!reasoning || t is None) ==> frame(line) is None
        }),
{
}

/// The end of a string is its first quote that no backslash stands before; a backslash
/// takes the byte behind it along.
pub proof fn lemma_string_end(line: Seq<u8>, k: int)
    requires
        0 <= k < line.len(),
    ensures
        line[k] == 0x22 ==> closing_quote(line, k) == Some(k),
        line[k] == 0x5c ==> closing_quote(line, k) == closing_quote(line, k + 2),
        line[k] != 0x22 && line[k] != 0x5c ==> closing_quote(line, k) == closing_quote(line, k + 1),
        closing_quote(line, line.len() as int) is None,
{
}

/// Blanks around a colon do not count.
pub proof fn lemma_blanks(line: Seq<u8>, j: int)
    requires
        0 <= j <= line.len(),
    ensures
        j <= past_blanks(line, j) <= line.len(),
        forall|i: int| j <= i < past_blanks(line, j) ==> #[trigger] line[i] == 0x20 || line[i] == 0x09,
        past_blanks(line, j) < line.len() ==> line[past_blanks(line, j)] != 0x20
            && line[past_blanks(line, j)] != 0x09,
    decreases line.len() - j,
{
    if j < line.len() && (line[j] == 0x20 || line[j] == 0x09) {
        lemma_blanks(line, j + 1);
    }
}

/// A tag that marks no text: advertising, limits, stop reasons and titles, and no other.
pub proof fn lemma_markers(rest: Seq<char>, tag: Seq<char>)
    ensures
        marker("ADS"@),
        marker("LIMIT_"@ + rest),
        marker("STOP_REASON"@ + rest),
        marker("CHAT_TITLE"@ + rest),
        tag.len() > 0 && tag[0] != 'A' && tag[0] != 'L' && tag[0] != 'S' && tag[0] != 'C' ==> !marker(
            tag,
        ),
        rest.len() > 0 ==> !marker("ADS"@ + rest),
        tag.len() == 0 ==> !marker(tag),
{
    reveal_strlit("ADS");
    reveal_strlit("LIMIT_");
    reveal_strlit("STOP_REASON");
    reveal_strlit("CHAT_TITLE");
    assert("ADS"@.len() == 3 && "LIMIT_"@.len() == 6 && "STOP_REASON"@.len() == 11
        && "CHAT_TITLE"@.len() == 10);
    assert("ADS"@[0] == 'A' && "LIMIT_"@[0] == 'L' && "STOP_REASON"@[0] == 'S' && "CHAT_TITLE"@[0]
        == 'C');
    assert(("LIMIT_"@ + rest).take(6) =~= "LIMIT_"@);
    assert(("STOP_REASON"@ + rest).take(11) =~= "STOP_REASON"@);
    assert(("CHAT_TITLE"@ + rest).take(10) =~= "CHAT_TITLE"@);
    let ads = "ADS"@ + rest;
    assert(ads[0] == 'A');
    if "LIMIT_"@.is_prefix_of(ads) {
        assert(ads.take(6)[0] == ads[0]);
    }
    if "STOP_REASON"@.is_prefix_of(ads) {
        assert(ads.take(11)[0] == ads[0]);
    }
    if "CHAT_TITLE"@.is_prefix_of(ads) {
        assert(ads.take(10)[0] == ads[0]);
    }
    if tag.len() > 0 {
        if "LIMIT_"@.is_prefix_of(tag) {
            assert(tag.take(6)[0] == tag[0]);
        }
        if "STOP_REASON"@.is_prefix_of(tag) {
            assert(tag.take(11)[0] == tag[0]);
        }
        if "CHAT_TITLE"@.is_prefix_of(tag) {
            assert(tag.take(10)[0] == tag[0]);
        }
    }
}

/// How the value of a field is searched for: strings are passed over from quote to quote,
/// with a backslash hiding the byte behind it, and only where a string opens can the field
/// stand.
pub proof fn lemma_field_search(line: Seq<u8>, key: Seq<u8>, i: int)
    requires
        0 <= i < line.len(),
    ensures
        line[i] == 0x5c ==> field(line, key, i, true) == field(line, key, i + 2, true),
        line[i] == 0x22 ==> field(line, key, i, true) == field(line, key, i + 1, false),
        line[i] != 0x5c && line[i] != 0x22 ==> field(line, key, i, true) == field(
            line,
            key,
            i + 1,
            true,
        ),
        line[i] != 0x22 ==> field(line, key, i, false) == field(line, key, i + 1, false),
        line[i] == 0x22 && value_at(line, key, i + 1) is Some ==> field(line, key, i, false)
            == value_at(line, key, i + 1),
        line[i] == 0x22 && value_at(line, key, i + 1) is None ==> field(line, key, i, false)
            == field(line, key, i + 1, true),
        field(line, key, line.len() as int, true) is None,
{
}

/// A value stands behind its key, a quote, a colon and another quote, with blanks around the
/// colon, and runs to the quote that closes it.
pub proof fn lemma_field_value(line: Seq<u8>, key: Seq<u8>, p: int, colon: int, quote: int, end: int)
    requires
        occurs_at(line, key, p),
        p + key.len() < colon < quote < end < line.len(),
        line[p + key.len()] == 0x22,
        past_blanks(line, p + key.len() + 1) == colon,
        line[colon] == 0x3a,
        past_blanks(line, colon + 1) == quote,
        line[quote] == 0x22,
        closing_quote(line, quote + 1) == Some(end),
    ensures
        value_at(line, key, p) == Some((quote + 1, end)),
{
}

/// A value has a text where it is not empty and is well formed; then it is the text that
/// its bytes encode.
pub proof fn lemma_value_text(raw: Seq<u8>)
    ensures
        text_of(raw) is Some <==> unescaped(raw, 0).len() > 0 && vstd::utf8::valid_utf8(
            unescaped(raw, 0),
        ),
        text_of(raw) matches Some(t) ==> encode_utf8(t) == unescaped(raw, 0),
{
    if text_of(raw) is Some {
        vstd::utf8::decode_utf8_encode_utf8(unescaped(raw, 0));
    }
}

/// A tag that is no marker stays where it stands, with its brackets.
pub proof fn lemma_other_tags(s: Seq<char>, i: int, open: int, close: int)
    requires
        0 <= i <= s.len(),
        next_item(s, '[', i) == Some(open),
        next_item(s, ']', open) == Some(close),
    ensures
        !marker(s.subrange(open + 1, close)) ==> stripped(s, i) == s.subrange(i, close + 1)
            + stripped(s, close + 1),
        marker(s.subrange(open + 1, close)) ==> stripped(s, i) == s.subrange(i, open) + stripped(
            s,
            close + 1,
        ),
{
    lemma_next_item(s, '[', i);
    lemma_next_item(s, ']', open);
    let tag = s.subrange(open + 1, close);
    let rest = stripped(s, close + 1);
    if marker(tag) {
        assert(s.subrange(i, open) + Seq::<char>::empty() + rest =~= s.subrange(i, open) + rest);
    } else {
        assert(s.subrange(i, open) + (seq!['['] + tag + seq![']']) =~= s.subrange(i, close + 1));
    }
}

/// The data of a stream, one line more: its data, if it has any, and then that of the lines
/// behind it; a line that has no end yet has none.
pub proof fn lemma_one_line(b: Seq<u8>, i: int, p: int)
    requires
        0 <= i <= b.len(),
    ensures
        next_item(b, 0x0a, i) is None ==> events(b, i) == Seq::<Seq<u8>>::empty(),
        next_item(b, 0x0a, i) == Some(p) && data_of(b.subrange(i, p)) is Some ==> events(b, i)
            == seq![data_of(b.subrange(i, p))->0] + events(b, p + 1),
        next_item(b, 0x0a, i) == Some(p) && data_of(b.subrange(i, p)) is None ==> events(b, i)
            == events(b, p + 1),
{
    lemma_next_item(b, 0x0a, i);
    if next_item(b, 0x0a, i) == Some(p) {
        assert(Seq::<Seq<u8>>::empty() + events(b, p + 1) =~= events(b, p + 1));
    }
}

} // verus!
