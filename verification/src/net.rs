//! The web side: what is asked of the server, and what its answers say.
use vstd::prelude::*;
#[allow(unused_imports)]
use vstd::utf8::encode_utf8;

#[allow(unused_imports)]
use crate::err::{Net, NetV};
#[allow(unused_imports)]
use crate::text::{bytes_at, bytes_eq_ci, bytes_of, eq_ignore_case, find_byte};
#[allow(unused_imports)]
use crate::text::{find_next, join3, lemma_next_item, next_at, next_item};
#[allow(unused_imports)]
use crate::text::{is_empty, occurs_at, own, utf8_lossy, utf8_lossy_text};

verus! {

/// Where the chat interface lives.
pub const API: &'static str = "https://duck.ai/duckchat/v1";

/// The user agent of the browser profile. The token holds a hash of this text, so
/// it has to be the one that is sent.
pub const PROFILE_UA: &'static str =
    "Mozilla/5.0 (Windows NT 10.0; Win64; x64) AppleWebKit/537.36 (KHTML, like Gecko) Chrome/131.0.0.0 Safari/537.36";

/// The user agent that takes the place of the profile's, given the one that was asked
/// for: an empty one asks for nothing.
pub fn ua_override(given: Option<String>) -> (r: Option<String>)
    ensures
        match given {
            Some(s) => if s@.len() > 0 { r matches Some(u) && u@ == s@ } else { r is None },
            None => r is None,
        },
{
    match given {
        Some(s) => if is_empty(s.as_str()) { None } else { Some(s) },
        None => None,
    }
}

/// The user agent that is sent: the one that was asked for, where it is not empty, or
/// else that of the profile.
pub fn chosen_ua(given: Option<String>) -> (r: String)
    ensures
        r@ == (match given {
            Some(s) => if s@.len() > 0 { s@ } else { PROFILE_UA@ },
            None => PROFILE_UA@,
        }),
{
    match ua_override(given) {
        Some(s) => s,
        None => own(PROFILE_UA),
    }
}

/// The headers of a request, by name.
pub type HeaderList = Vec<(&'static str, String)>;

/// The headers of an answer, by name.
pub type RespHeaders = Vec<(String, String)>;

/// An answer of the server.
pub struct Resp {
    pub status: u16,
    pub headers: RespHeaders,
    pub body: Vec<u8>,
}

/// What the start page says about itself.
pub struct Page {
    pub be_version: String,
    pub fe_chat_hash: String,
    pub entry_bundle: String,
}

/// The version of the front end, from its tag and its hash.
pub open spec fn version(tag: Seq<char>, sha: Seq<char>) -> Seq<char> {
    (if tag.len() == 0 { "dev"@ } else { tag }) + "-"@ + (if sha.len() == 0 { "hash"@ } else { sha })
}

impl Page {
    /// The version of the front end.
    pub fn fe_version(&self) -> (r: String)
        ensures
            r@ == version(self.be_version@, self.fe_chat_hash@),
    {
        let tag = if is_empty(self.be_version.as_str()) { "dev" } else { self.be_version.as_str() };
        let sha = if is_empty(self.fe_chat_hash.as_str()) {
            "hash"
        } else {
            self.fe_chat_hash.as_str()
        };
        join3(tag, "-", sha)
    }
}

// ------------------------------------------------------------------------- event streams

/// A line without the line ends behind it.
pub open spec fn eol_free(line: Seq<u8>) -> Seq<u8>
    decreases line.len(),
{
    if line.len() > 0 && (line.last() == 0x0d || line.last() == 0x0a) {
        eol_free(line.drop_last())
    } else {
        line
    }
}

/// Bytes without the spaces before them.
pub open spec fn space_free(d: Seq<u8>) -> Seq<u8>
    decreases d.len(),
{
    if d.len() > 0 && d[0] == 0x20 {
        space_free(d.skip(1))
    } else {
        d
    }
}

/// The data of a line of an event stream, if it has any.
pub open spec fn data_of(line: Seq<u8>) -> Option<Seq<u8>> {
    let t = eol_free(line);
    if occurs_at(t, encode_utf8("data:"@), 0) {
        Some(space_free(t.skip(5)))
    } else {
        None
    }
}

/// The data of the whole lines from `i` on.
pub open spec fn events(b: Seq<u8>, i: int) -> Seq<Seq<u8>>
    decreases b.len() - i,
    when 0 <= i <= b.len()
{
    proof {
        lemma_next_item(b, 0x0a, i);
    }
    match next_item(b, 0x0a, i) {
        None => seq![],
        Some(p) => (match data_of(b.subrange(i, p)) {
            Some(d) => seq![d],
            None => seq![],
        }) + events(b, p + 1),
    }
}

/// Where the last whole line among the first `n` bytes ends.
pub open spec fn last_break(b: Seq<u8>, n: int) -> int
    decreases n,
{
    if n <= 0 || n > b.len() {
        0
    } else if b[n - 1] == 0x0a {
        n
    } else {
        last_break(b, n - 1)
    }
}

/// The bytes behind the last whole line.
pub open spec fn unfinished(b: Seq<u8>) -> Seq<u8> {
    b.skip(last_break(b, b.len() as int))
}

/// Where the last whole line ends.
proof fn lemma_last_break(b: Seq<u8>, n: int)
    requires
        0 <= n <= b.len(),
    ensures
        0 <= last_break(b, n) <= n,
        last_break(b, n) > 0 ==> b[last_break(b, n) - 1] == 0x0a,
        forall|k: int| last_break(b, n) <= k < n ==> #[trigger] b[k] != 0x0a,
    decreases n,
{
    if n > 0 && b[n - 1] != 0x0a {
        lemma_last_break(b, n - 1);
    }
}

/// The last break is determined by what it separates.
proof fn lemma_last_break_is(b: Seq<u8>, n: int, i: int)
    requires
        0 <= i <= n <= b.len(),
        i > 0 ==> b[i - 1] == 0x0a,
        forall|k: int| i <= k < n ==> #[trigger] b[k] != 0x0a,
    ensures
        last_break(b, n) == i,
    decreases n,
{
    if n > i {
        assert(b[n - 1] != 0x0a);
        lemma_last_break_is(b, n - 1, i);
    }
}

/// The next place of a byte does not depend on what follows it.
proof fn lemma_next_in_prefix(a: Seq<u8>, b: Seq<u8>, c: u8, i: int)
    requires
        0 <= i,
        next_item(a, c, i) is Some,
    ensures
        next_item(a + b, c, i) == next_item(a, c, i),
    decreases a.len() - i,
{
    if i < a.len() && a[i] != c {
        lemma_next_in_prefix(a, b, c, i + 1);
    }
}

/// The next place of a byte, counted from another start.
proof fn lemma_next_shift(b: Seq<u8>, c: u8, k: int, i: int)
    requires
        0 <= k <= b.len(),
        0 <= i,
    ensures
        next_item(b.skip(k), c, i) == (match next_item(b, c, k + i) {
            Some(p) => Some(p - k),
            None => None,
        }),
    decreases b.len() - i,
{
    if k + i < b.len() && b[k + i] != c {
        lemma_next_shift(b, c, k, i + 1);
    }
}

/// The data of lines, counted from another start.
proof fn lemma_events_shift(b: Seq<u8>, k: int, i: int)
    requires
        0 <= k,
        0 <= i,
        k + i <= b.len(),
    ensures
        events(b.skip(k), i) == events(b, k + i),
    decreases b.len() - i,
{
    lemma_next_shift(b, 0x0a, k, i);
    lemma_next_item(b, 0x0a, k + i);
    if let Some(p) = next_item(b, 0x0a, k + i) {
        assert(b.skip(k).subrange(i, p - k) =~= b.subrange(k + i, p));
        lemma_events_shift(b, k, p - k + 1);
    }
}

/// The data of the whole lines of `a`, and the data from the last break on.
proof fn lemma_events_upto(a: Seq<u8>, b: Seq<u8>, i: int)
    requires
        0 <= i <= last_break(a, a.len() as int),
    ensures
        events(a + b, i) == events(a, i) + events(a + b, last_break(a, a.len() as int)),
    decreases a.len() - i,
{
    let end = last_break(a, a.len() as int);
    lemma_last_break(a, a.len() as int);
    lemma_next_item(a, 0x0a, i);
    if i == end {
        assert(next_item(a, 0x0a, i) is None);
        assert(events(a, i) =~= seq![]);
        assert(events(a, i) + events(a + b, end) =~= events(a + b, end));
    } else {
        assert(a[end - 1] == 0x0a);
        assert(next_item(a, 0x0a, i) is Some);
        let p = next_item(a, 0x0a, i)->0;
        assert(p + 1 <= end) by {
            if p >= end {
                assert(a[end - 1] != 0x0a);
            }
        }
        lemma_next_in_prefix(a, b, 0x0a, i);
        lemma_next_item(a + b, 0x0a, i);
        lemma_events_upto(a, b, p + 1);
        assert((a + b).subrange(i, p) =~= a.subrange(i, p));
        let d = match data_of(a.subrange(i, p)) {
            Some(d) => seq![d],
            None => seq![],
        };
        assert(d + (events(a, p + 1) + events(a + b, end)) =~= (d + events(a, p + 1)) + events(
            a + b,
            end,
        ));
    }
}

/// How a stream is cut into pieces does not matter: the data of `a` and `b` together
/// are the data of `a`, and those of its unfinished line with `b` behind it.
pub proof fn lemma_split_stream(a: Seq<u8>, b: Seq<u8>)
    ensures
        events(a + b, 0) == events(a, 0) + events(unfinished(a) + b, 0),
        unfinished(a + b) == unfinished(unfinished(a) + b),
{
    let end = last_break(a, a.len() as int);
    lemma_last_break(a, a.len() as int);
    lemma_events_upto(a, b, 0);
    lemma_events_shift(a + b, end, 0);
    let t = unfinished(a) + b;
    assert((a + b).skip(end) =~= t);
    let last = last_break(t, t.len() as int);
    lemma_last_break(t, t.len() as int);
    let all = a + b;
    assert forall|k: int| end + last <= k < all.len() implies #[trigger] all[k] != 0x0a by {
        assert(all[k] == t[k - end]);
    }
    if last > 0 {
        assert(all[end + last - 1] == t[last - 1]);
    } else if end > 0 {
        assert(all[end - 1] == a[end - 1]);
    }
    lemma_last_break_is(all, all.len() as int, end + last);
    assert(all.skip(end + last) =~= t.skip(last));
}

/// Rows of bytes as a mathematical value.
pub open spec fn rows(v: Seq<Vec<u8>>) -> Seq<Seq<u8>> {
    Seq::new(v.len(), |i: int| v[i]@)
}

/// An event stream that comes in pieces.
pub struct Sse {
    /// The bytes of the line that is not whole yet.
    pub tail: Vec<u8>,
}

impl Sse {
    /// A stream before its first byte.
    pub fn new() -> (r: Self)
        ensures
            r.tail@ == Seq::<u8>::empty(),
    {
        Sse { tail: Vec::new() }
    }

    /// Takes the next piece of the stream and returns the data of the lines that are
    /// whole now.
    pub fn chunk(&mut self, chunk: &[u8]) -> (r: Vec<Vec<u8>>)
        ensures
            rows(r@) == events(old(self).tail@ + chunk@, 0),
            final(self).tail@ == unfinished(old(self).tail@ + chunk@),
    {
        let mut data: Vec<u8> = bytes_of(self.tail.as_slice(), 0, self.tail.len());
        crate::text::push_bytes(&mut data, chunk);
        assert(data@ =~= self.tail@ + chunk@);
        let (r, end) = feed(data.as_slice());
        self.tail = bytes_of(data.as_slice(), end, data.len());
        assert(data@.subrange(end as int, data@.len() as int) =~= data@.skip(end as int));
        r
    }

    /// Ends the stream: an unfinished line has no data.
    pub fn finish(self) -> (r: Vec<Vec<u8>>)
        ensures
            rows(r@) == events(self.tail@, 0),
    {
        feed(self.tail.as_slice()).0
    }
}

fn trim_eol(b: &[u8], from: usize, to: usize) -> (end: usize)
    requires
        from <= to <= b@.len(),
    ensures
        from <= end <= to,
        b@.subrange(from as int, end as int) == eol_free(b@.subrange(from as int, to as int)),
{
    let mut end: usize = to;
    while end > from && (b[end - 1] == 0x0d || b[end - 1] == 0x0a)
        invariant
            from <= end <= to <= b@.len(),
            eol_free(b@.subrange(from as int, to as int)) == eol_free(
                b@.subrange(from as int, end as int),
            ),
        decreases end - from,
    {
        assert(b@.subrange(from as int, end as int).drop_last() =~= b@.subrange(
            from as int,
            end - 1,
        ));
        end -= 1;
    }
    end
}

fn data_between(b: &[u8], from: usize, to: usize) -> (r: Option<Vec<u8>>)
    requires
        from <= to <= b@.len(),
    ensures
        match data_of(b@.subrange(from as int, to as int)) {
            Some(d) => r matches Some(v) && v@ == d,
            None => r is None,
        },
{
    let end: usize = trim_eol(b, from, to);
    let ghost t = b@.subrange(from as int, end as int);
    let key = "data:".as_bytes();
    proof {
        reveal_strlit("data:");
        vstd::utf8::is_ascii_chars_encode_utf8("data:"@);
        assert(key@.len() == 5);
    }
    if end - from < 5 {
        return None;
    }
    let head = bytes_of(b, from, end);
    if !bytes_at(head.as_slice(), key, 0) {
        return None;
    }
    let mut i: usize = from + 5;
    assert(b@.subrange(i as int, end as int) =~= t.skip(5));
    while i < end && b[i] == 0x20
        invariant
            i <= end <= b@.len(),
            space_free(t.skip(5)) == space_free(b@.subrange(i as int, end as int)),
        decreases end - i,
    {
        assert(b@.subrange(i as int, end as int).skip(1) =~= b@.subrange(i + 1, end as int));
        i += 1;
    }
    Some(bytes_of(b, i, end))
}

fn feed(b: &[u8]) -> (r: (Vec<Vec<u8>>, usize))
    ensures
        rows(r.0@) == events(b@, 0),
        r.1 == last_break(b@, b@.len() as int),
        r.1 <= b@.len(),
{
    let n: usize = b.len();
    let mut out: Vec<Vec<u8>> = Vec::new();
    let mut i: usize = 0;
    assert(rows(out@) + events(b@, 0) =~= events(b@, 0));
    loop
        invariant
            n == b@.len(),
            i <= n,
            i > 0 ==> b@[i - 1] == 0x0a,
            rows(out@) + events(b@, i as int) == events(b@, 0),
        decreases n - i,
    {
        proof {
            lemma_next_item(b@, 0x0a, i as int);
        }
        let p: usize = match find_byte(b, 0x0a, i) {
            Some(p) => p,
            None => {
                proof {
                    lemma_last_break_is(b@, n as int, i as int);
                    assert(rows(out@) + events(b@, i as int) =~= rows(out@));
                }
                return (out, i);
            },
        };
        let ghost before = rows(out@);
        if let Some(d) = data_between(b, i, p) {
            out.push(d);
            assert(rows(out@) =~= before.push(d@));
            assert(before.push(d@) + events(b@, p + 1) =~= before + (seq![d@] + events(b@, p + 1)));
        } else {
            assert(before + events(b@, p + 1) =~= before + (Seq::<Seq<u8>>::empty() + events(
                b@,
                p + 1,
            )));
        }
        i = p + 1;
    }
}

// ------------------------------------------------------------------------------- answers

/// Two header names are the same, whatever the case of their letters.
pub open spec fn same_name(a: Seq<char>, b: Seq<char>) -> bool {
    eq_ignore_case(encode_utf8(a), encode_utf8(b))
}

/// The place of the first header with a name, from `i` on.
pub open spec fn header_at(h: Seq<(String, String)>, name: Seq<char>, i: int) -> Option<int>
    decreases h.len() - i,
{
    if i < 0 || i >= h.len() {
        None
    } else if same_name(h[i].0@, name) {
        Some(i)
    } else {
        header_at(h, name, i + 1)
    }
}

/// The value of the first header with a name.
pub open spec fn header_value(h: Seq<(String, String)>, name: Seq<char>) -> Option<Seq<char>> {
    match header_at(h, name, 0) {
        Some(i) => Some(h[i].1@),
        None => None,
    }
}

/// The value of the first header with a name, whatever the case of its letters.
pub fn header_ci<'a>(headers: &'a [(String, String)], name: &str) -> (r: Option<&'a str>)
    ensures
        match header_value(headers@, name@) {
            Some(v) => r matches Some(s) && s@ == v,
            None => r is None,
        },
{
    let mut i: usize = 0;
    while i < headers.len()
        invariant
            i <= headers@.len(),
            header_at(headers@, name@, 0) == header_at(headers@, name@, i as int),
        decreases headers@.len() - i,
    {
        let (k, v) = &headers[i];
        if bytes_eq_ci(k.as_str().as_bytes(), name.as_bytes()) {
            return Some(v.as_str());
        }
        i += 1;
    }
    None
}

/// The text of the attribute value behind the first `needle`; empty if there is none.
pub open spec fn attr_text(html: Seq<u8>, needle: Seq<u8>) -> Seq<char> {
    match next_at(html, needle, 0) {
        Some(p) => {
            let start = p + needle.len();
            let end = match next_item(html, 0x22, start) {
                Some(q) => q,
                None => html.len() as int,
            };
            utf8_lossy_text(html.subrange(start, end))
        },
        None => seq![],
    }
}

fn attr(html: &[u8], needle: &[u8]) -> (r: String)
    ensures
        r@ == attr_text(html@, needle@),
{
    let n: usize = html.len();
    match find_next(html, needle, 0) {
        Some(p) => {
            let start: usize = p + needle.len();
            let end: usize = match find_byte(html, 0x22, start) {
                Some(q) => q,
                None => n,
            };
            let v = bytes_of(html, start, end);
            utf8_lossy(v.as_slice())
        },
        None => String::new(),
    }
}

/// A letter or a digit of ASCII.
pub open spec fn alphanumeric(b: u8) -> bool {
    0x30 <= b <= 0x39 || 0x41 <= b <= 0x5a || 0x61 <= b <= 0x7a
}

/// Where the run of letters and digits ends that `i` stands in.
pub open spec fn run_end(b: Seq<u8>, i: int) -> int
    decreases b.len() - i,
{
    if 0 <= i < b.len() && alphanumeric(b[i]) {
        run_end(b, i + 1)
    } else {
        i
    }
}

/// The hash in the first name `entry.duckai.<hash>.js`, from `i` on, whose hash has
/// sixteen letters or more.
pub open spec fn bundle_hash(html: Seq<u8>, i: int) -> Option<Seq<char>>
    decreases html.len() - i,
{
    let needle = encode_utf8("entry.duckai."@);
    match next_at(html, needle, i) {
        Some(p) => {
            let start = p + needle.len();
            let end = run_end(html, start);
            if end - start >= 16 && occurs_at(html, encode_utf8(".js"@), end) {
                Some(utf8_lossy_text(html.subrange(start, end)))
            } else if i < start <= html.len() {
                bundle_hash(html, start)
            } else {
                None
            }
        },
        None => None,
    }
}

fn find_run_end(b: &[u8], from: usize) -> (r: usize)
    requires
        from <= b@.len(),
    ensures
        r == run_end(b@, from as int),
        from <= r <= b@.len(),
{
    let mut i: usize = from;
    while i < b.len() && ((0x30 <= b[i] && b[i] <= 0x39) || (0x41 <= b[i] && b[i] <= 0x5a) || (0x61
        <= b[i] && b[i] <= 0x7a))
        invariant
            from <= i <= b@.len(),
            run_end(b@, from as int) == run_end(b@, i as int),
        decreases b@.len() - i,
    {
        i += 1;
    }
    i
}

fn entry_bundle(html: &[u8]) -> (r: Option<String>)
    ensures
        match bundle_hash(html@, 0) {
            Some(h) => r matches Some(s) && s@ == h,
            None => r is None,
        },
{
    let needle = "entry.duckai.".as_bytes();
    proof {
        reveal_strlit("entry.duckai.");
        vstd::utf8::is_ascii_chars_encode_utf8("entry.duckai."@);
        assert(needle@.len() == 13);
    }
    let n: usize = html.len();
    let mut i: usize = 0;
    loop
        invariant
            n == html@.len(),
            i <= n,
            needle@ == encode_utf8("entry.duckai."@),
            needle@.len() == 13,
            bundle_hash(html@, 0) == bundle_hash(html@, i as int),
        decreases n - i,
    {
        let p: usize = match find_next(html, needle, i) {
            Some(p) => p,
            None => return None,
        };
        let start: usize = p + 13;
        let end: usize = find_run_end(html, start);
        if end - start >= 16 && bytes_at(html, ".js".as_bytes(), end) {
            let v = bytes_of(html, start, end);
            return Some(utf8_lossy(v.as_slice()));
        }
        i = start;
    }
}

/// What the start page says about itself.
pub open spec fn page_facts(status: u16, body: Seq<u8>) -> Result<
    (Seq<char>, Seq<char>, Seq<char>),
    NetV,
> {
    let tag = attr_text(body, encode_utf8("data-version-tag=\""@));
    let sha = attr_text(body, encode_utf8("data-version-sha=\""@));
    if status != 200 {
        Err(NetV::Status { ctx: "duck.ai HTML"@, status })
    } else {
        match bundle_hash(body, 0) {
            None => Err(NetV::Empty("entry.duckai.<hash>.js не найден в HTML"@)),
            Some(hash) => if tag.len() == 0 || sha.len() == 0 {
                Err(NetV::Empty("data-version-tag/sha не найдены"@))
            } else {
                Ok((tag, sha, hash))
            },
        }
    }
}

/// Reads the start page.
pub fn page_of(r: &Resp) -> (p: Result<Page, Net>)
    ensures
        match page_facts(r.status, r.body@) {
            Ok(f) => p matches Ok(g) && g.be_version@ == f.0 && g.fe_chat_hash@ == f.1
                && g.entry_bundle@ == f.2,
            Err(e) => p matches Err(f) && f@ == e,
        },
{
    if r.status != 200 {
        return Err(Net::Status { ctx: "duck.ai HTML", status: r.status });
    }
    let body = r.body.as_slice();
    let be = attr(body, "data-version-tag=\"".as_bytes());
    let sha = attr(body, "data-version-sha=\"".as_bytes());
    let bundle = match entry_bundle(body) {
        Some(b) => b,
        None => return Err(Net::Empty(own("entry.duckai.<hash>.js не найден в HTML"))),
    };
    if is_empty(be.as_str()) || is_empty(sha.as_str()) {
        return Err(Net::Empty(own("data-version-tag/sha не найдены")));
    }
    Ok(Page { be_version: be, fe_chat_hash: sha, entry_bundle: bundle })
}

/// The body of an answer, if its status says that it is one.
pub fn body_of(r: Resp, ctx: &'static str) -> (b: Result<Vec<u8>, Net>)
    ensures
        if r.status == 200 {
            b matches Ok(v) && v@ == r.body@
        } else {
            b matches Err(e) && e@ == (NetV::Status { ctx: ctx@, status: r.status })
        },
{
    if r.status != 200 {
        return Err(Net::Status { ctx, status: r.status });
    }
    Ok(r.body)
}

/// The challenge that an answer of the status request carries.
pub open spec fn challenge_text(status: u16, h: Seq<(String, String)>) -> Result<Seq<char>, NetV> {
    if status != 200 {
        Err(NetV::Status { ctx: "status"@, status })
    } else {
        match header_value(h, "x-vqd-hash-1"@) {
            Some(v) => Ok(v),
            None => Err(NetV::RespHeader("x-vqd-hash-1"@)),
        }
    }
}

/// The challenge that an answer of the status request carries.
pub fn challenge_of(r: &Resp) -> (c: Result<Vec<u8>, Net>)
    ensures
        match challenge_text(r.status, r.headers@) {
            Ok(t) => c matches Ok(v) && v@ == encode_utf8(t),
            Err(e) => c matches Err(f) && f@ == e,
        },
{
    if r.status != 200 {
        return Err(Net::Status { ctx: "status", status: r.status });
    }
    match header_ci(r.headers.as_slice(), "x-vqd-hash-1") {
        Some(v) => {
            let b = v.as_bytes();
            let n: usize = b.len();
            let c = bytes_of(b, 0, n);
            assert(b@.subrange(0, n as int) =~= b@);
            Ok(c)
        },
        None => Err(Net::RespHeader("x-vqd-hash-1")),
    }
}

} // verus!
