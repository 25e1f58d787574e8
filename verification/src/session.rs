//! A session: what it knows, what it asks next, and what it makes of the answers.
use vstd::prelude::*;
#[allow(unused_imports)]
use vstd::utf8::{decode_utf8, encode_utf8, valid_utf8};

#[allow(unused_imports)]
use crate::b64::{decode, decoded, encode_string, encoded};
#[allow(unused_imports)]
use crate::err::{Failure, FailureV};
#[allow(unused_imports)]
use crate::floats::FloatOps;
#[allow(unused_imports)]
use crate::net::{version, HeaderList, Page};
#[allow(unused_imports)]
use crate::pipeline::bundle::{analyze_bundle, env_of, shown_by, BundleEnv, StackFacts, Timing};
#[allow(unused_imports)]
use crate::pipeline::flow::{is_native, FlowErr};
#[allow(unused_imports)]
use crate::pipeline::mba::{simplifies, Math};
use crate::pipeline::ops::Program;
#[allow(unused_imports)]
use crate::pipeline::parse::parsed;
#[allow(unused_imports)]
use crate::request::{bundle_link, chat_headers, pairs, script_url, status_headers};
#[allow(unused_imports)]
use crate::solver::{next_state, sample_u64, token, token_outcome, Facts};
#[allow(unused_imports)]
use crate::text::{
    chars_of, dec_u64, decimal, find_char, find_text, group_concat, join2, latin, lemma_next_item, next_at,
    next_item, own, str_eq, string_of, utf8_str,
};

verus! {

// -------------------------------------------------------------------------------- models

/// The identifier in a description of a model; empty if there is none.
pub open spec fn model_id(obj: Seq<char>) -> Seq<char> {
    match next_at(obj, "\"id\":\""@, 0) {
        None => seq![],
        Some(k) => match next_item(obj, '"', k + 6) {
            Some(q) => obj.subrange(k + 6, q),
            None => obj.skip(k + 6),
        },
    }
}

/// The model to use, of those described from `i` on: the first free one that can
/// reason; failing that `best`, or the first one that can reason.
pub open spec fn chosen_model(s: Seq<char>, i: int, best: Option<Seq<char>>) -> Option<Seq<char>>
    decreases s.len() - i,
    when 0 <= i <= s.len()
{
    proof {
        lemma_next_item(s, '{', i);
        if next_item(s, '{', i) is Some {
            lemma_next_item(s, '}', next_item(s, '{', i)->0);
        }
    }
    match next_item(s, '{', i) {
        None => best,
        Some(p) => match next_item(s, '}', p) {
            None => best,
            Some(q) => {
                let obj = s.subrange(p, q);
                let id = model_id(obj);
                let free = next_at(obj, "\"free\""@, 0) is Some;
                let efforts = next_at(obj, "supportedReasoningEffort"@, 0) is Some;
                if id.len() > 0 && free && efforts {
                    Some(id)
                } else {
                    chosen_model(
                        s,
                        q,
                        if id.len() > 0 && best is None && efforts { Some(id) } else { best },
                    )
                }
            },
        },
    }
}

fn sub_chars(v: &Vec<char>, from: usize, to: usize) -> (r: Vec<char>)
    requires
        from <= to <= v@.len(),
    ensures
        r@ == v@.subrange(from as int, to as int),
{
    let mut r: Vec<char> = Vec::new();
    let mut i: usize = from;
    while i < to
        invariant
            from <= i <= to <= v@.len(),
            r@ == v@.subrange(from as int, i as int),
        decreases to - i,
    {
        r.push(v[i]);
        i += 1;
        assert(r@ =~= v@.subrange(from as int, i as int));
    }
    r
}

fn id_of(obj: &Vec<char>) -> (r: Vec<char>)
    ensures
        r@ == model_id(obj@),
{
    let n: usize = obj.len();
    proof {
        reveal_strlit("\"id\":\"");
    }
    match find_text(obj, "\"id\":\"", 0) {
        None => Vec::new(),
        Some(k) => match find_char(obj, '"', k + 6) {
            Some(q) => sub_chars(obj, k + 6, q),
            None => {
                assert(obj@.subrange(k + 6, n as int) =~= obj@.skip(k + 6));
                sub_chars(obj, k + 6, n)
            },
        },
    }
}

/// The model to use, out of the list of the models; `None` where the list names
/// none that can reason, or is no text.
pub fn find_default_model(models_json: &[u8]) -> (r: Option<String>)
    ensures
        match if valid_utf8(models_json@) {
            chosen_model(decode_utf8(models_json@), 0, None)
        } else {
            None
        } {
            Some(id) => r matches Some(s) && s@ == id,
            None => r is None,
        },
{
    let text = match utf8_str(models_json) {
        Some(t) => t,
        None => return None,
    };
    let s = chars_of(text);
    let mut best: Option<String> = None;
    let ghost mut bv: Option<Seq<char>> = None;
    let mut i: usize = 0;
    loop
        invariant
            valid_utf8(models_json@),
            s@ == decode_utf8(models_json@),
            i <= s@.len(),
            match bv {
                Some(id) => best matches Some(b) && b@ == id,
                None => best is None,
            },
            chosen_model(s@, 0, None) == chosen_model(s@, i as int, bv),
        decreases s@.len() - i,
    {
        proof {
            lemma_next_item(s@, '{', i as int);
        }
        let p: usize = match find_char(&s, '{', i) {
            Some(p) => p,
            None => return best,
        };
        proof {
            lemma_next_item(s@, '}', p as int);
        }
        let q: usize = match find_char(&s, '}', p) {
            Some(q) => q,
            None => return best,
        };
        let obj = sub_chars(&s, p, q);
        let id = id_of(&obj);
        if id.len() > 0 {
            let free = find_text(&obj, "\"free\"", 0).is_some();
            let efforts = find_text(&obj, "supportedReasoningEffort", 0).is_some();
            if free && efforts {
                assert(id@.subrange(0, id@.len() as int) =~= id@);
                return Some(string_of(id.as_slice(), 0, id.len()));
            }
            if best.is_none() && efforts {
                best = Some(string_of(id.as_slice(), 0, id.len()));
                proof {
                    assert(id@.subrange(0, id@.len() as int) =~= id@);
                    bv = Some(id@);
                }
            }
        }
        i = q;
    }
}

// ------------------------------------------------------------------- facts of the bundle

/// What the script of a page says: the stack, the timing, the events, and where the
/// script comes from.
pub struct BundleFacts {
    pub stack: StackFacts,
    pub timing: Timing,
    pub signal_events: Vec<String>,
    pub bundle_url: String,
}

/// `r` is what a session takes out of the facts `env` of the script with the hash
/// `hash`.
pub open spec fn usable(
    r: Result<BundleFacts, Failure>,
    env: BundleEnv,
    hash: Seq<char>,
) -> bool {
    match env.stack {
        None => r matches Err(e) && e@ == FailureV::Metric("стек не извлечён из бандла"@),
        Some(stack) => if env.timing.timeout_ms == 0 {
            r matches Err(e) && e@ == FailureV::Metric("таймаут гонки jsa не найден в бандле"@)
        } else {
            &&& r matches Ok(f)
            &&& f.stack == stack
            &&& f.timing == env.timing
            &&& f.signal_events == env.signal_events
            &&& f.bundle_url@ == script_url(hash)
        },
    }
}

/// What a session takes out of the facts of a script.
pub fn usable_facts(env: BundleEnv, hash: &str) -> (r: Result<BundleFacts, Failure>)
    ensures
        usable(r, env, hash@),
{
    let stack = match env.stack {
        Some(s) => s,
        None => return Err(Failure::Metric(own("стек не извлечён из бандла"))),
    };
    if env.timing.timeout_ms == 0 {
        return Err(Failure::Metric(own("таймаут гонки jsa не найден в бандле")));
    }
    Ok(
        BundleFacts {
            stack,
            timing: env.timing,
            signal_events: env.signal_events,
            bundle_url: bundle_link(hash),
        },
    )
}

/// `r` is what the script `js` of a page says.
pub open spec fn bundle_outcome(
    r: Result<BundleFacts, Failure>,
    hash: Seq<char>,
    js: Seq<u8>,
) -> bool {
    if !valid_utf8(js) {
        r matches Err(e) && e@ == FailureV::Metric("бандл не UTF-8"@)
    } else {
        match parsed(decode_utf8(js), 0) {
            Err(_) => r matches Err(e) && e@ == FailureV::Metric("бандл не парсится oxc"@),
            Ok(program) => if js.len() > u32::MAX {
                r matches Err(e) && e@ == FailureV::Metric("бандл не парсится oxc"@)
            } else {
                exists|env: BundleEnv| #[trigger]
                    env_of(env, js, shown_by(program)) && usable(r, env, hash)
            },
        }
    }
}

/// Reads the script of a page.
pub fn bundle_facts(page: &Page, bundle_js: &[u8]) -> (r: Result<BundleFacts, Failure>)
    ensures
        bundle_outcome(r, page.entry_bundle@, bundle_js@),
{
    let src = match utf8_str(bundle_js) {
        Some(s) => s,
        None => return Err(Failure::Metric(own("бандл не UTF-8"))),
    };
    proof {
        vstd::utf8::decode_utf8_encode_utf8(bundle_js@);
    }
    let env = match analyze_bundle(src) {
        Some(e) => e,
        None => return Err(Failure::Metric(own("бандл не парсится oxc"))),
    };
    let ghost ev = env;
    let r = usable_facts(env, page.entry_bundle.as_str());
    assert(usable(r, ev, page.entry_bundle@));
    r
}

// ------------------------------------------------------------------------------- signals

/// The first `n` events of the page, none later than `end`.
pub open spec fn event_list(v: Seq<(String, u64)>, end: u64, n: int) -> Seq<char>
    decreases n,
{
    if n <= 0 || n > v.len() {
        seq![]
    } else {
        event_list(v, end, n - 1) + (if n > 1 { ","@ } else { seq![] }) + "{\"name\":\""@ + v[n
            - 1].0@ + "\",\"delta\":"@ + decimal(
            if v[n - 1].1 < end { v[n - 1].1 as nat } else { end as nat },
        ) + "}"@
    }
}

/// How long a stretch of time is; zero where the clock went back.
pub open spec fn elapsed(start: u64, now: u64) -> u64 {
    if now >= start { (now - start) as u64 } else { 0 }
}

/// The signals of a page between two times.
pub open spec fn signals_text(start: u64, now: u64, events: Seq<(String, u64)>) -> Seq<char> {
    "{\"start\":"@ + decimal(start as nat) + ",\"events\":["@ + event_list(
        events,
        elapsed(start, now),
        events.len() as int,
    ) + "],\"end\":"@ + decimal(elapsed(start, now) as nat) + "}"@
}

fn push_events(v: &Vec<(String, u64)>, end: u64, j: &mut String)
    ensures
        final(j)@ == old(j)@ + event_list(v@, end, v@.len() as int),
{
    let mut i: usize = 0;
    assert(old(j)@ + event_list(v@, end, 0) =~= old(j)@);
    while i < v.len()
        invariant
            i <= v@.len(),
            j@ == old(j)@ + event_list(v@, end, i as int),
        decreases v@.len() - i,
    {
        if i > 0 {
            j.push_str(",");
        }
        j.push_str("{\"name\":\"");
        j.push_str(v[i].0.as_str());
        j.push_str("\",\"delta\":");
        let d: u64 = if v[i].1 < end { v[i].1 } else { end };
        j.push_str(dec_u64(d).as_str());
        j.push_str("}");
        i += 1;
        assert(j@ == old(j)@ + event_list(v@, end, i as int)) by {
            broadcast use group_concat;

        }
    }
}

fn signals_json(start: u64, now: u64, events: &Vec<(String, u64)>) -> (j: String)
    ensures
        j@ == signals_text(start, now, events@),
{
    broadcast use group_concat;

    let end: u64 = if now >= start { now - start } else { 0 };
    let mut j = join2("{\"start\":", dec_u64(start).as_str());
    j.push_str(",\"events\":[");
    push_events(events, end, &mut j);
    j.push_str("],\"end\":");
    j.push_str(dec_u64(end).as_str());
    j.push_str("}");
    j
}

// ------------------------------------------------------------------------------- session

/// What a session knows.
pub struct Session {
    pub ua: String,
    pub fe_version: String,
    pub bundle_url: String,
    pub facts: Facts,
    pub signal_events: Vec<String>,
    pub default_model: String,
    /// The token, once there is one.
    pub jsa: Option<String>,
    /// A challenge that came with an answer and is not solved yet.
    pub pending: Option<Vec<u8>>,
    pub signals_start: u64,
    pub pending_events: Vec<(String, u64)>,
    pub rng: u64,
    pub journey: String,
    pub facts_reboots: u32,
}

/// What became of a challenge.
pub enum Refresh {
    /// There is a token now.
    Solved,
    /// Another challenge may be asked for.
    Again(FlowErr),
    Failed(Failure),
}

/// How a chat request ended.
pub enum ChatOutcome {
    /// The answer is complete.
    Finished,
    /// There is a new token: the request may be repeated.
    Challenge,
    Failed(String),
}

/// How often a session asks for another challenge.
pub const MAX_ATTEMPTS: u32 = 5;

/// How often a session reads the page again.
pub const MAX_REBOOTS: u32 = 2;

/// One of the events is called `impression`.
pub open spec fn has_impression(events: Seq<String>) -> bool {
    exists|i: int| 0 <= i < events.len() && #[trigger] events[i]@ == "impression"@
}

/// The token that a request carries: the first one has none.
pub open spec fn carried_token(jsa: Option<String>) -> Seq<char> {
    match jsa {
        Some(t) => t@,
        None => "initial"@,
    }
}

fn find_impression(events: &Vec<String>) -> (r: bool)
    ensures
        r == has_impression(events@),
{
    let mut i: usize = 0;
    while i < events.len()
        invariant
            i <= events@.len(),
            forall|k: int| 0 <= k < i ==> #[trigger] events@[k]@ != "impression"@,
        decreases events@.len() - i,
    {
        if str_eq(events[i].as_str(), "impression") {
            assert(events@[i as int]@ == "impression"@);
            return true;
        }
        i += 1;
    }
    false
}

impl Session {
    /// A session on a page, before its first token.
    pub fn start(
        page: &Page,
        found: BundleFacts,
        models_raw: &[u8],
        journey: String,
        ua: String,
        rng: u64,
        now: u64,
    ) -> (r: Result<Session, Failure>)
        ensures
            match if valid_utf8(models_raw@) {
                chosen_model(decode_utf8(models_raw@), 0, None)
            } else {
                None
            } {
                None => r matches Err(e) && e@ == FailureV::Session(
                    "каталог моделей пуст или не распознан"@,
                ),
                Some(model) => {
                    &&& r matches Ok(s)
                    &&& s.default_model@ == model
                    &&& s.ua == ua
                    &&& s.fe_version@ == version(page.be_version@, page.fe_chat_hash@)
                    &&& s.bundle_url@ == found.bundle_url@
                    &&& s.facts.stack == found.stack
                    &&& s.facts.timing == found.timing
                    &&& s.facts.origin@ == "https://duck.ai"@
                    &&& s.facts.bundle_url@ == found.bundle_url@
                    &&& s.facts.verify_attrs@.len() == 0
                    &&& s.facts.verify_globals@.len() == 0
                    &&& s.signal_events == found.signal_events
                    &&& s.jsa is None
                    &&& s.pending is None
                    &&& s.signals_start == now
                    &&& s.journey == journey
                    &&& s.facts_reboots == 0
                    &&& if has_impression(found.signal_events@) {
                        &&& s.rng == next_state(rng)
                        &&& s.pending_events@.len() == 1
                        &&& s.pending_events@[0].0@ == "impression"@
                        &&& s.pending_events@[0].1 == 60 + next_state(rng) % 360
                    } else {
                        s.rng == rng && s.pending_events@.len() == 0
                    }
                },
            },
    {
        let default_model = match find_default_model(models_raw) {
            Some(m) => m,
            None => return Err(Failure::Session(own("каталог моделей пуст или не распознан"))),
        };
        let mut s = Session {
            ua,
            fe_version: page.fe_version(),
            bundle_url: own(found.bundle_url.as_str()),
            facts: Facts {
                stack: found.stack,
                timing: found.timing,
                origin: "https://duck.ai",
                bundle_url: found.bundle_url,
                verify_attrs: Vec::new(),
                verify_globals: Vec::new(),
            },
            signal_events: found.signal_events,
            default_model,
            jsa: None,
            pending: None,
            signals_start: now,
            pending_events: Vec::new(),
            rng,
            journey,
            facts_reboots: 0,
        };
        s.seed_page_events();
        Ok(s)
    }

    fn seed_page_events(&mut self)
        ensures
            if has_impression(old(self).signal_events@) {
                &&& final(self).rng == next_state(old(self).rng)
                &&& final(self).pending_events@.len() == old(self).pending_events@.len() + 1
                &&& final(self).pending_events@.drop_last() == old(self).pending_events@
                &&& final(self).pending_events@.last().0@ == "impression"@
                &&& final(self).pending_events@.last().1 == 60 + next_state(old(self).rng) % 360
            } else {
                *final(self) == *old(self)
            },
            *final(self) == (Session {
                rng: final(self).rng,
                pending_events: final(self).pending_events,
                ..*old(self)
            }),
    {
        if !find_impression(&self.signal_events) {
            return ;
        }
        let delta: u64 = 60 + sample_u64(&mut self.rng, 360);
        self.pending_events.push((own("impression"), delta));
        assert(self.pending_events@.drop_last() =~= old(self).pending_events@);
    }

    /// The timing of the page.
    pub fn timing_facts(&self) -> (r: &Timing)
        ensures
            *r == self.facts.timing,
    {
        &self.facts.timing
    }

    /// The token, once there is one.
    pub fn jsa_token(&self) -> (r: Option<&str>)
        ensures
            match self.jsa {
                Some(t) => r matches Some(s) && s@ == t@,
                None => r is None,
            },
    {
        match &self.jsa {
            Some(t) => Some(t.as_str()),
            None => None,
        }
    }

    /// The signals since the last request, in base64. The next request starts anew.
    pub fn signals_b64(&mut self, now: u64) -> (r: String)
        ensures
            r@ == latin(
                encoded(
                    encode_utf8(
                        signals_text(old(self).signals_start, now, old(self).pending_events@),
                    ),
                ),
            ),
            final(self).pending_events@.len() == 0,
            *final(self) == (Session {
                signals_start: now,
                pending_events: final(self).pending_events,
                ..*old(self)
            }),
    {
        let j = signals_json(self.signals_start, now, &self.pending_events);
        self.pending_events = Vec::new();
        self.signals_start = now;
        encode_string(j.as_str().as_bytes())
    }

    /// The headers of the request for a challenge.
    pub fn status_request(&mut self, now: u64) -> (r: HeaderList)
        ensures
            final(self).pending_events@.len() == 0,
            *final(self) == (Session {
                signals_start: now,
                pending_events: final(self).pending_events,
                ..*old(self)
            }),
            pairs(r@) == seq![
                ("Cache-Control"@, "no-store"@),
                ("x-vqd-accept"@, "1"@),
                ("x-fe-version"@, old(self).fe_version@),
                (
                    "x-fe-signals"@,
                    latin(
                        encoded(
                            encode_utf8(
                                signals_text(
                                    old(self).signals_start,
                                    now,
                                    old(self).pending_events@,
                                ),
                            ),
                        ),
                    ),
                ),
                ("x-ddg-journey-id"@, old(self).journey@),
                ("accept"@, "*/*"@),
                ("origin"@, "https://duck.ai"@),
                ("referer"@, "https://duck.ai/"@),
            ],
    {
        let signals = self.signals_b64(now);
        status_headers(self.journey.as_str(), self.fe_version.as_str(), signals.as_str())
    }

    /// The headers of a chat request.
    pub fn chat_request(&mut self, now: u64) -> (r: HeaderList)
        ensures
            final(self).pending_events@.len() == 0,
            *final(self) == (Session {
                signals_start: now,
                pending_events: final(self).pending_events,
                ..*old(self)
            }),
            pairs(r@) == seq![
                ("Content-Type"@, "application/json"@),
                ("accept"@, "text/event-stream"@),
                ("x-fe-version"@, old(self).fe_version@),
                (
                    "x-fe-signals"@,
                    latin(
                        encoded(
                            encode_utf8(
                                signals_text(
                                    old(self).signals_start,
                                    now,
                                    old(self).pending_events@,
                                ),
                            ),
                        ),
                    ),
                ),
                ("X-Vqd-Hash-1"@, carried_token(old(self).jsa)),
                ("x-ddg-journey-id"@, old(self).journey@),
                ("origin"@, "https://duck.ai"@),
                ("referer"@, "https://duck.ai/"@),
            ],
    {
        let signals = self.signals_b64(now);
        let jsa = match &self.jsa {
            Some(t) => own(t.as_str()),
            None => own("initial"),
        };
        chat_headers(self.fe_version.as_str(), signals, jsa, self.journey.as_str())
    }

    /// Takes the challenge that waits, if there is one.
    pub fn take_pending(&mut self) -> (r: Option<Vec<u8>>)
        ensures
            r == old(self).pending,
            *final(self) == (Session { pending: None, ..*old(self) }),
    {
        let mut r: Option<Vec<u8>> = None;
        std::mem::swap(&mut r, &mut self.pending);
        r
    }

    /// `r` and `after` are what becomes of a session when solving a challenge gave
    /// `t`.
    pub open spec fn settled(
        self,
        after: Session,
        attempt: u32,
        t: Result<String, FlowErr>,
        r: Refresh,
    ) -> bool {
        match t {
            Ok(s) => after == (Session { jsa: Some(s), ..self }) && r is Solved,
            Err(e) => after == self && if attempt < MAX_ATTEMPTS {
                r matches Refresh::Again(x) && x@ == e@
            } else {
                r matches Refresh::Failed(x) && x@ == FailureV::Session(e@.words())
            },
        }
    }

    /// Takes over what solving a challenge gave, at the given attempt.
    pub fn settle(&mut self, attempt: u32, t: Result<String, FlowErr>) -> (r: Refresh)
        ensures
            old(self).settled(*final(self), attempt, t, r),
    {
        match t {
            Ok(s) => {
                self.jsa = Some(s);
                Refresh::Solved
            },
            Err(e) => if attempt < MAX_ATTEMPTS {
                Refresh::Again(e)
            } else {
                Refresh::Failed(Failure::Session(e.text()))
            },
        }
    }

    /// How long the token says that solving took, out of the next random number.
    pub open spec fn stated_duration(self) -> u64 {
        let span = self.facts.timing.timeout_ms / 2;
        if span == 0 {
            8
        } else {
            (8 + next_state(self.rng) % span) as u64
        }
    }

    /// The session once that number is drawn.
    pub open spec fn drawn(self) -> Session {
        if self.facts.timing.timeout_ms / 2 == 0 {
            self
        } else {
            Session { rng: next_state(self.rng), ..self }
        }
    }

    /// Solves a challenge, at the given attempt.
    pub fn solve<F, S, N>(
        &mut self,
        challenge: &[u8],
        attempt: u32,
        fl: &F,
        simplifier: &S,
        native: &N,
    ) -> (r: Refresh) where
        F: FloatOps,
        S: Fn(&Vec<Math>) -> (Vec<Math>, String),
        N: Fn(u64, &Program, &Vec<u64>) -> Option<u64>,

        requires
            fl.ok(),
            simplifies(*simplifier),
            is_native(*native),
        ensures
            match decoded(challenge@) {
                None => *final(self) == *old(self) && (r matches Refresh::Failed(e) && e@
                    == FailureV::Metric("челлендж не декодируется из base64"@)),
                Some(js) => if !valid_utf8(js) {
                    *final(self) == *old(self) && (r matches Refresh::Failed(e) && e@
                        == FailureV::Metric("челлендж не UTF-8"@))
                } else {
                    exists|t: Result<String, FlowErr>| #[trigger]
                        token_outcome(
                            fl.model(),
                            t,
                            decode_utf8(js),
                            old(self).ua@,
                            old(self).facts,
                            old(self).stated_duration(),
                            *simplifier,
                            *native,
                        ) && old(self).drawn().settled(*final(self), attempt, t, r)
                },
            },
    {
        let js = match decode(challenge) {
            Some(js) => js,
            None => {
                return Refresh::Failed(Failure::Metric(own("челлендж не декодируется из base64")));
            },
        };
        let src = match utf8_str(js.as_slice()) {
            Some(s) => s,
            None => return Refresh::Failed(Failure::Metric(own("челлендж не UTF-8"))),
        };
        let timeout: u64 = self.facts.timing.timeout_ms;
        let dur: u64 = 8 + sample_u64(&mut self.rng, timeout / 2);
        assert(*self == old(self).drawn());
        let t = token(src, self.ua.as_str(), &self.facts, dur, fl, simplifier, native);
        let ghost tv = t;
        assert(dur == old(self).stated_duration());
        assert(token_outcome(
            fl.model(),
            tv,
            decode_utf8(js@),
            old(self).ua@,
            old(self).facts,
            old(self).stated_duration(),
            *simplifier,
            *native,
        ));
        let r = self.settle(attempt, t);
        assert(old(self).drawn().settled(*self, attempt, tv, r));
        r
    }

    /// Counts another reading of the page; refuses after two.
    pub fn count_reboot(&mut self) -> (r: Result<(), Failure>)
        ensures
            if old(self).facts_reboots >= MAX_REBOOTS {
                &&& *final(self) == *old(self)
                &&& r matches Err(e)
                &&& e@ == FailureV::Session(
                    "факты бандла пересобраны дважды — дальше бессмысленно"@,
                )
            } else {
                &&& r is Ok
                &&& *final(self) == (Session {
                    facts_reboots: (old(self).facts_reboots + 1) as u32,
                    ..*old(self)
                })
            },
    {
        if self.facts_reboots >= MAX_REBOOTS {
            return Err(
                Failure::Session(own("факты бандла пересобраны дважды — дальше бессмысленно")),
            );
        }
        self.facts_reboots += 1;
        Ok(())
    }

    /// Takes over the facts of a page that was read again.
    pub fn adopt(&mut self, page: &Page, found: BundleFacts)
        ensures
            final(self).bundle_url@ == found.bundle_url@,
            final(self).fe_version@ == version(page.be_version@, page.fe_chat_hash@),
            final(self).facts.stack == found.stack,
            final(self).facts.timing == found.timing,
            final(self).facts.origin@ == "https://duck.ai"@,
            final(self).facts.bundle_url@ == found.bundle_url@,
            final(self).facts.verify_attrs@.len() == 0,
            final(self).facts.verify_globals@.len() == 0,
            final(self).signal_events == found.signal_events,
            *final(self) == (Session {
                bundle_url: final(self).bundle_url,
                fe_version: final(self).fe_version,
                facts: final(self).facts,
                signal_events: final(self).signal_events,
                ..*old(self)
            }),
    {
        self.bundle_url = own(found.bundle_url.as_str());
        self.fe_version = page.fe_version();
        self.facts = Facts {
            stack: found.stack,
            timing: found.timing,
            origin: "https://duck.ai",
            bundle_url: found.bundle_url,
            verify_attrs: Vec::new(),
            verify_globals: Vec::new(),
        };
        self.signal_events = found.signal_events;
    }
}

/// A refresh ends: another challenge is asked for only before the last attempt, and a
/// challenge that is not solved leaves the token as it was.
pub proof fn lemma_refresh_ends(
    s: Session,
    after: Session,
    attempt: u32,
    t: Result<String, FlowErr>,
    r: Refresh,
)
    requires
        s.settled(after, attempt, t, r),
    ensures
        r is Again ==> attempt < MAX_ATTEMPTS,
        r is Solved <==> t is Ok,
        r !is Solved ==> after.jsa == s.jsa,
        r is Solved ==> after.jsa == Some(t->Ok_0),
{
}

/// The duration that a token states is at least eight milliseconds, and lies below
/// the timeout of the page wherever that is sixteen or more.
pub proof fn lemma_duration(s: Session)
    ensures
        8 <= s.stated_duration(),
        s.facts.timing.timeout_ms >= 16 ==> s.stated_duration() < s.facts.timing.timeout_ms,
{
}

} // verus!
