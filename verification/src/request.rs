//! Requests: their addresses, their headers in the order of the wire, and when to
//! repeat them.
use vstd::prelude::*;

use crate::err::Net;
#[allow(unused_imports)]
use crate::err::NetV;
#[allow(unused_imports)]
use crate::net::{same_name, HeaderList, API};
#[allow(unused_imports)]
use crate::text::{bytes_eq_ci, dec_u64, decimal, group_concat, join3, own, str_eq};

verus! {

/// Headers as a mathematical value.
pub open spec fn pairs(v: Seq<(&'static str, String)>) -> Seq<(Seq<char>, Seq<char>)> {
    Seq::new(v.len(), |i: int| (v[i].0@, v[i].1@))
}

/// The names of headers.
pub open spec fn names(v: Seq<(&'static str, String)>) -> Seq<Seq<char>> {
    Seq::new(v.len(), |i: int| v[i].0@)
}

/// The address of a script of the page.
pub open spec fn script_url(hash: Seq<char>) -> Seq<char> {
    "https://duck.ai/dist/duckai-dist/entry.duckai."@ + hash + ".js"@
}

/// The address of the script with a hash.
pub fn bundle_link(hash: &str) -> (r: String)
    ensures
        r@ == script_url(hash@),
{
    join3("https://duck.ai/dist/duckai-dist/entry.duckai.", hash, ".js")
}

/// The address of an end point of the chat interface.
pub fn endpoint(name: &str) -> (r: String)
    ensures
        r@ == API@ + "/"@ + name@,
{
    join3(API, "/", name)
}

/// The headers of the request for the start page.
pub fn page_headers() -> (r: HeaderList)
    ensures
        pairs(r@) == seq![
            ("accept"@, "text/html,application/xhtml+xml,application/xml;q=0.9,*/*;q=0.8"@),
            ("accept-language"@, "en-US,en;q=0.9"@),
        ],
{
    let r: HeaderList = vec![
        ("accept", own("text/html,application/xhtml+xml,application/xml;q=0.9,*/*;q=0.8")),
        ("accept-language", own("en-US,en;q=0.9")),
    ];
    assert(pairs(r@) =~= seq![
        ("accept"@, "text/html,application/xhtml+xml,application/xml;q=0.9,*/*;q=0.8"@),
        ("accept-language"@, "en-US,en;q=0.9"@),
    ]);
    r
}

/// The headers of the request for a script.
pub fn bundle_headers() -> (r: HeaderList)
    ensures
        pairs(r@) == seq![("accept"@, "*/*"@), ("referer"@, "https://duck.ai/"@)],
{
    let r: HeaderList = vec![("accept", own("*/*")), ("referer", own("https://duck.ai/"))];
    assert(pairs(r@) =~= seq![("accept"@, "*/*"@), ("referer"@, "https://duck.ai/"@)]);
    r
}

/// The headers of the request for the models.
pub fn models_headers(journey: &str) -> (r: HeaderList)
    ensures
        pairs(r@) == seq![
            ("accept"@, "application/json"@),
            ("x-ddg-journey-id"@, journey@),
            ("origin"@, "https://duck.ai"@),
            ("referer"@, "https://duck.ai/"@),
        ],
{
    let r: HeaderList = vec![
        ("accept", own("application/json")),
        ("x-ddg-journey-id", own(journey)),
        ("origin", own("https://duck.ai")),
        ("referer", own("https://duck.ai/")),
    ];
    assert(pairs(r@) =~= seq![
        ("accept"@, "application/json"@),
        ("x-ddg-journey-id"@, journey@),
        ("origin"@, "https://duck.ai"@),
        ("referer"@, "https://duck.ai/"@),
    ]);
    r
}

/// The headers of the status request.
pub fn status_headers(journey: &str, fe_version: &str, fe_signals: &str) -> (r: HeaderList)
    ensures
        pairs(r@) == seq![
            ("Cache-Control"@, "no-store"@),
            ("x-vqd-accept"@, "1"@),
            ("x-fe-version"@, fe_version@),
            ("x-fe-signals"@, fe_signals@),
            ("x-ddg-journey-id"@, journey@),
            ("accept"@, "*/*"@),
            ("origin"@, "https://duck.ai"@),
            ("referer"@, "https://duck.ai/"@),
        ],
{
    let r: HeaderList = vec![
        ("Cache-Control", own("no-store")),
        ("x-vqd-accept", own("1")),
        ("x-fe-version", own(fe_version)),
        ("x-fe-signals", own(fe_signals)),
        ("x-ddg-journey-id", own(journey)),
        ("accept", own("*/*")),
        ("origin", own("https://duck.ai")),
        ("referer", own("https://duck.ai/")),
    ];
    assert(pairs(r@) =~= seq![
        ("Cache-Control"@, "no-store"@),
        ("x-vqd-accept"@, "1"@),
        ("x-fe-version"@, fe_version@),
        ("x-fe-signals"@, fe_signals@),
        ("x-ddg-journey-id"@, journey@),
        ("accept"@, "*/*"@),
        ("origin"@, "https://duck.ai"@),
        ("referer"@, "https://duck.ai/"@),
    ]);
    r
}

/// The headers of a chat request.
pub fn chat_headers(fe_version: &str, signals: String, jsa: String, journey: &str) -> (r: HeaderList)
    ensures
        pairs(r@) == seq![
            ("Content-Type"@, "application/json"@),
            ("accept"@, "text/event-stream"@),
            ("x-fe-version"@, fe_version@),
            ("x-fe-signals"@, signals@),
            ("X-Vqd-Hash-1"@, jsa@),
            ("x-ddg-journey-id"@, journey@),
            ("origin"@, "https://duck.ai"@),
            ("referer"@, "https://duck.ai/"@),
        ],
{
    let ghost s = signals@;
    let ghost j = jsa@;
    let r: HeaderList = vec![
        ("Content-Type", own("application/json")),
        ("accept", own("text/event-stream")),
        ("x-fe-version", own(fe_version)),
        ("x-fe-signals", signals),
        ("X-Vqd-Hash-1", jsa),
        ("x-ddg-journey-id", own(journey)),
        ("origin", own("https://duck.ai")),
        ("referer", own("https://duck.ai/")),
    ];
    assert(pairs(r@) =~= seq![
        ("Content-Type"@, "application/json"@),
        ("accept"@, "text/event-stream"@),
        ("x-fe-version"@, fe_version@),
        ("x-fe-signals"@, s),
        ("X-Vqd-Hash-1"@, j),
        ("x-ddg-journey-id"@, journey@),
        ("origin"@, "https://duck.ai"@),
        ("referer"@, "https://duck.ai/"@),
    ]);
    r
}

// ------------------------------------------------------------------------- header order

/// The headers that the browser profile sends of itself, in its order.
pub open spec fn profile_names() -> Seq<Seq<char>> {
    seq![
        "sec-ch-ua"@,
        "sec-ch-ua-mobile"@,
        "sec-ch-ua-platform"@,
        "upgrade-insecure-requests"@,
        "user-agent"@,
        "accept"@,
        "sec-fetch-site"@,
        "sec-fetch-mode"@,
        "sec-fetch-user"@,
        "sec-fetch-dest"@,
        "accept-language"@,
        "priority"@,
    ]
}

fn profile_headers() -> (r: Vec<&'static str>)
    ensures
        strs(r@) == profile_names(),
{
    let r: Vec<&'static str> = vec![
        "sec-ch-ua",
        "sec-ch-ua-mobile",
        "sec-ch-ua-platform",
        "upgrade-insecure-requests",
        "user-agent",
        "accept",
        "sec-fetch-site",
        "sec-fetch-mode",
        "sec-fetch-user",
        "sec-fetch-dest",
        "accept-language",
        "priority",
    ];
    assert(strs(r@) =~= profile_names());
    r
}

/// The texts of some strings.
pub open spec fn strs(v: Seq<&'static str>) -> Seq<Seq<char>> {
    Seq::new(v.len(), |i: int| v[i]@)
}

/// The place of the first name that is the same as `name`, from `i` on.
pub open spec fn name_at(v: Seq<Seq<char>>, name: Seq<char>, i: int) -> Option<int>
    decreases v.len() - i,
{
    if i < 0 || i >= v.len() {
        None
    } else if same_name(v[i], name) {
        Some(i)
    } else {
        name_at(v, name, i + 1)
    }
}

/// How a header of the profile is written: as the request writes it, where it does.
pub open spec fn written_as(own: Seq<Seq<char>>, overridden: bool, name: Seq<char>) -> Seq<char> {
    match name_at(own, name, 0) {
        Some(i) => own[i],
        None => if name == "user-agent"@ && overridden { "User-Agent"@ } else { name },
    }
}

/// Those of the first `n` names that the profile does not send.
pub open spec fn beyond_profile(own: Seq<Seq<char>>, n: int) -> Seq<Seq<char>>
    decreases n,
{
    if n <= 0 || n > own.len() {
        seq![]
    } else {
        beyond_profile(own, n - 1) + if name_at(profile_names(), own[n - 1], 0) is None {
            seq![own[n - 1]]
        } else {
            seq![]
        }
    }
}

/// The order of the headers of a request on the wire: those of the profile first,
/// and behind them the other ones of the request.
pub open spec fn wire_order(own: Seq<Seq<char>>, overridden: bool) -> Seq<Seq<char>> {
    profile_names().map_values(|name: Seq<char>| written_as(own, overridden, name))
        + beyond_profile(own, own.len() as int)
}

fn find_name(v: &Vec<&'static str>, name: &str) -> (r: Option<usize>)
    ensures
        match name_at(strs(v@), name@, 0) {
            Some(i) => r matches Some(k) && k == i && 0 <= i < v@.len(),
            None => r is None,
        },
{
    let mut i: usize = 0;
    while i < v.len()
        invariant
            i <= v@.len(),
            name_at(strs(v@), name@, 0) == name_at(strs(v@), name@, i as int),
        decreases v@.len() - i,
    {
        assert(strs(v@)[i as int] == v@[i as int]@);
        if bytes_eq_ci(v[i].as_bytes(), name.as_bytes()) {
            return Some(i);
        }
        i += 1;
    }
    None
}

/// The order of the headers of a request on the wire.
pub fn header_order(extra: &[(&'static str, String)], overridden: bool) -> (r: Vec<&'static str>)
    ensures
        strs(r@) == wire_order(names(extra@), overridden),
{
    let ghost own = names(extra@);
    let profile = profile_headers();
    let mut keys: Vec<&'static str> = Vec::new();
    let mut i: usize = 0;
    while i < extra.len()
        invariant
            i <= extra@.len(),
            own == names(extra@),
            strs(keys@) == own.take(i as int),
        decreases extra@.len() - i,
    {
        let ghost before = strs(keys@);
        keys.push(extra[i].0);
        i += 1;
        assert(strs(keys@) =~= before.push(own[i - 1]));
        assert(own.take(i as int) =~= own.take(i - 1).push(own[i - 1]));
    }
    assert(strs(keys@) =~= own);
    let mut r: Vec<&'static str> = Vec::new();
    let mut k: usize = 0;
    let ghost mapped = profile_names().map_values(
        |name: Seq<char>| written_as(own, overridden, name),
    );
    while k < profile.len()
        invariant
            k <= profile@.len(),
            strs(keys@) == own,
            strs(profile@) == profile_names(),
            mapped == profile_names().map_values(
                |name: Seq<char>| written_as(own, overridden, name),
            ),
            strs(r@) == mapped.take(k as int),
        decreases profile@.len() - k,
    {
        let name: &'static str = profile[k];
        assert(strs(profile@)[k as int] == name@);
        let written: &'static str = match find_name(&keys, name) {
            Some(j) => {
                assert(strs(keys@)[j as int] == keys@[j as int]@);
                keys[j]
            },
            None => if str_eq(name, "user-agent") && overridden {
                "User-Agent"
            } else {
                name
            },
        };
        let ghost before = strs(r@);
        r.push(written);
        k += 1;
        assert(strs(r@) =~= before.push(written@));
        assert(strs(profile@).len() == profile@.len());
        assert(mapped[k - 1] == written_as(own, overridden, profile_names()[k - 1]));
        assert(mapped.take(k as int) =~= mapped.take(k - 1).push(mapped[k - 1]));
    }
    assert(strs(profile@).len() == profile@.len());
    assert(mapped.take(k as int) =~= mapped);
    let mut n: usize = 0;
    assert(mapped + beyond_profile(own, 0) =~= mapped);
    while n < keys.len()
        invariant
            n <= keys@.len(),
            strs(keys@) == own,
            strs(profile@) == profile_names(),
            strs(r@) == mapped + beyond_profile(own, n as int),
        decreases keys@.len() - n,
    {
        let name: &'static str = keys[n];
        assert(strs(keys@)[n as int] == name@);
        let ghost before = strs(r@);
        if find_name(&profile, name).is_none() {
            r.push(name);
            assert(strs(r@) =~= before.push(name@));
        }
        n += 1;
        assert(strs(r@) =~= mapped + beyond_profile(own, n as int));
    }
    assert(own.len() == keys@.len());
    r
}

/// The profile's own headers come first, each in its place.
pub proof fn lemma_profile_first(own: Seq<Seq<char>>, overridden: bool, i: int)
    requires
        0 <= i < profile_names().len(),
    ensures
        wire_order(own, overridden).len() >= profile_names().len(),
        wire_order(own, overridden)[i] == written_as(own, overridden, profile_names()[i]),
{
}

// ------------------------------------------------------------------------------- repeats

/// What to do when a request failed.
pub enum Retry {
    /// Try again after so many milliseconds.
    Wait(u64),
    /// Give up.
    Stop(Net),
}

/// A request is tried again when the client failed or the answer was empty; the wait
/// grows with the attempt, counted from zero.
pub fn after_failure(attempt: u32, e: Net) -> (r: Retry)
    ensures
        match e@ {
            NetV::Wreq(_) | NetV::Empty(_) => r == Retry::Wait((400 + 300 * attempt) as u64),
            _ => r matches Retry::Stop(f) && f@ == e@,
        },
{
    match e {
        Net::Wreq(_) | Net::Empty(_) => Retry::Wait(400 + 300 * attempt as u64),
        e => Retry::Stop(e),
    }
}

/// The error after the last attempt.
pub fn exhausted(ctx: &str, attempts: u32) -> (e: Net)
    ensures
        e@ == NetV::Empty("hang "@ + ctx@ + " после "@ + decimal(attempts as nat) + " попыток"@),
{
    broadcast use group_concat;

    let n = dec_u64(attempts as u64);
    let mut s = join3("hang ", ctx, " после ");
    s.push_str(n.as_str());
    s.push_str(" попыток");
    Net::Empty(s)
}

} // verus!
