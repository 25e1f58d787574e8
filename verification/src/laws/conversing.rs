//! What a conversation comes to: how an answer is taken, what is remembered of it, and
//! which model and token a session uses.
use vstd::prelude::*;

#[allow(unused_imports)]
use crate::chat::{first_step, next_step, OutcomeV, StepV};
#[allow(unused_imports)]
use crate::err::{Failure, FailureV, NetV};
#[allow(unused_imports)]
use crate::pipeline::bundle::BundleEnv;
#[allow(unused_imports)]
use crate::pipeline::flow::FlowErr;
#[allow(unused_imports)]
use crate::session::{
    carried_token, chosen_model, elapsed, event_list, has_impression, model_id, signals_text,
    usable, BundleFacts, Refresh, Session,
};
#[allow(unused_imports)]
use crate::solver::next_state;
#[allow(unused_imports)]
use crate::text::{decimal, lemma_next_item, next_at, next_item};
#[allow(unused_imports)]
use crate::turn::{logged_by, trimmed, trimmed_end, turn, white, ActionV, EventV, Said};
#[allow(unused_imports)]
use crate::wire::stripped;

verus! {

// ---------------------------------------------------------------------------- an answer

/// How an answer is taken: a page that has gone is read again, a token that was refused is
/// renewed with the challenge that came, a good answer ends the request, once the challenge
/// that came with it is used for the next one, and any other status is a failure that is
/// named. A challenge waits only where it is to be used next.
pub proof fn lemma_answers(status: u16, c: Option<Vec<u8>>, waiting: Option<Vec<u8>>, v: Vec<u8>)
    ensures
        first_step(410, c, waiting) == (StepV::Rebuild(c), waiting),
        first_step(418, c, waiting) == (StepV::Renew, c),
        first_step(429, c, waiting) == (StepV::Renew, c),
        first_step(200, Some(v), waiting) == (StepV::RenewNext, Some(v)),
        first_step(200, None, waiting) == (StepV::End(OutcomeV::Finished), waiting),
        status != 200 && status != 410 && status != 418 && status != 429 ==> first_step(
            status,
            c,
            waiting,
        ) == (
            StepV::End(OutcomeV::Failed("duck статус "@ + decimal(status as nat))),
            waiting,
        ),
{
}

/// A page that has gone: once it is read and the token renewed the message can be sent
/// again; either failing ends the request.
pub proof fn lemma_page_gone(c: Option<Vec<u8>>, waiting: Option<Vec<u8>>)
    ensures
        ({
            let (a, w) = next_step(first_step(410, c, waiting).0, true, waiting);
            &&& w == c
            &&& next_step(a, true, w) == (StepV::End(OutcomeV::Challenge), c)
            &&& next_step(a, false, w) == (
                StepV::End(
                    OutcomeV::Failed("410: jsa refresh после пересборки фактов не удался"@),
                ),
                c,
            )
        }),
        next_step(first_step(410, c, waiting).0, false, waiting) == (
            StepV::End(OutcomeV::Failed("410: пересборка фактов не удалась"@)),
            waiting,
        ),
{
}

/// A token that was refused: renewed at once, or after the page has been read again, in
/// which case no challenge waits any more; failing twice ends the request.
pub proof fn lemma_token_refused(c: Option<Vec<u8>>, waiting: Option<Vec<u8>>, read: bool)
    ensures
        next_step(StepV::Renew, true, c) == (StepV::End(OutcomeV::Challenge), c),
        ({
            let (a, w) = next_step(StepV::Renew, false, c);
            let (b, x) = next_step(a, read, w);
            &&& w == c
            &&& x is None
            &&& next_step(b, true, x).0 == StepV::End(OutcomeV::Challenge)
            &&& next_step(b, false, x).0 == StepV::End(
                OutcomeV::Failed("jsa refresh после 418/429 не удался"@),
            )
        }),
{
}

/// A good answer is complete, however the token for the next request fares.
pub proof fn lemma_good_answer(v: Vec<u8>, waiting: Option<Vec<u8>>, ok: bool)
    ensures
        ({
            let (a, w) = first_step(200, Some(v), waiting);
            next_step(a, ok, w) == (StepV::End(OutcomeV::Finished), Some(v))
        }),
        next_step(first_step(200, None, waiting).0, ok, waiting).0 == StepV::End(OutcomeV::Finished),
{
}

// ------------------------------------------------------------------------ a conversation

/// White space: the blanks of ASCII and those beyond it; no letter, digit or mark is.
pub proof fn lemma_white(c: char)
    ensures
        white(' ') && white('\t') && white('\n') && white('\r') && white('\u{b}') && white('\u{c}'),
        white('\u{85}') && white('\u{a0}') && white('\u{1680}') && white('\u{2028}') && white(
            '\u{2029}',
        ) && white('\u{202f}') && white('\u{205f}') && white('\u{3000}'),
        '\u{2000}' <= c <= '\u{200a}' ==> white(c),
        '!' <= c <= '~' ==> !white(c),
        c < '\t' ==> !white(c),
        '\u{e}' <= c < ' ' ==> !white(c),
        '\u{a1}' <= c < '\u{1680}' ==> !white(c),
        '\u{200b}' <= c < '\u{2028}' ==> !white(c),
        c > '\u{3000}' ==> !white(c),
{
}

/// All of the characters are white space.
pub open spec fn blank(s: Seq<char>) -> bool {
    forall|i: int| 0 <= i < s.len() ==> white(#[trigger] s[i])
}

proof fn lemma_trimmed_end(s: Seq<char>)
    ensures
        trimmed_end(s).len() <= s.len(),
        trimmed_end(s) == s.take(trimmed_end(s).len() as int),
        blank(s.skip(trimmed_end(s).len() as int)),
        trimmed_end(s).len() > 0 ==> !white(trimmed_end(s).last()),
    decreases s.len(),
{
    if s.len() > 0 && white(s.last()) {
        let t = s.drop_last();
        lemma_trimmed_end(t);
        let n = trimmed_end(t).len() as int;
        assert(s.take(n) =~= t.take(n));
        assert forall|i: int| 0 <= i < s.skip(n).len() implies white(#[trigger] s.skip(n)[i]) by {
            if n + i < t.len() {
                assert(t.skip(n)[i] == s[n + i]);
            } else {
                assert(s[n + i] == s.last());
            }
        }
    } else {
        assert(s.take(s.len() as int) =~= s);
    }
}

/// Trimming takes white space off both ends, all of it, and nothing else.
pub proof fn lemma_trimmed(s: Seq<char>)
    ensures
        trimmed(s).len() > 0 ==> !white(trimmed(s)[0]) && !white(trimmed(s).last()),
        exists|a: Seq<char>, b: Seq<char>|
            blank(a) && blank(b) && s == #[trigger] (a + trimmed(s) + b),
    decreases s.len(),
{
    if s.len() > 0 && white(s[0]) {
        let t = s.subrange(1, s.len() as int);
        lemma_trimmed(t);
        let (a, b) = choose|a: Seq<char>, b: Seq<char>|
            blank(a) && blank(b) && t == #[trigger] (a + trimmed(t) + b);
        let c = seq![s[0]] + a;
        assert(blank(c)) by {
            assert forall|i: int| 0 <= i < c.len() implies white(#[trigger] c[i]) by {
                if i > 0 {
                    assert(c[i] == a[i - 1]);
                }
            }
        }
        assert(trimmed(s) == trimmed(t));
        assert(s =~= seq![s[0]] + t);
        assert(seq![s[0]] + (a + trimmed(t) + b) =~= c + trimmed(t) + b);
        assert(s == c + trimmed(s) + b);
    } else {
        lemma_trimmed_end(s);
        let n = trimmed_end(s).len() as int;
        let a = Seq::<char>::empty();
        assert(blank(a));
        assert(s =~= a + trimmed(s) + s.skip(n));
        if trimmed(s).len() > 0 {
            assert(trimmed(s)[0] == s[0]);
        }
    }
}

/// What becomes of a line and of an answer: a line that is blank ends the conversation, any
/// other is sent as it is without the blanks around it, and joins what was said as the
/// user's; a finished answer is shown without its markers and joins it as the assistant's;
/// a challenge leads to one repetition; a failure is reported, and neither is remembered.
pub proof fn lemma_turns(h: Seq<Said>, s: Seq<char>, a: Seq<char>, repeated: bool)
    ensures
        turn(h, EventV::InputEnded) == (h, ActionV::Leave),
        blank(s) ==> turn(h, EventV::Line(s)) == (h, ActionV::Leave),
        !blank(s) ==> turn(h, EventV::Line(s)) == (
            h.push(Said { role: "user"@, text: trimmed(s) }),
            ActionV::Send(trimmed(s)),
        ),
        turn(h, EventV::Answered(OutcomeV::Finished, a, repeated)) == (
            h.push(Said { role: "assistant"@, text: stripped(a, 0) }),
            ActionV::Show(stripped(a, 0)),
        ),
        turn(h, EventV::Answered(OutcomeV::Challenge, a, false)) == (h, ActionV::Repeat),
        turn(h, EventV::Answered(OutcomeV::Challenge, a, true)) == (h, ActionV::Renewed),
        turn(h, EventV::Answered(OutcomeV::Failed(s), a, repeated)) == (h, ActionV::Report(s)),
{
    lemma_trimmed(s);
    let (x, y) = choose|x: Seq<char>, y: Seq<char>|
        blank(x) && blank(y) && s == #[trigger] (x + trimmed(s) + y);
    if blank(s) && trimmed(s).len() > 0 {
        assert(s[x.len() as int] == trimmed(s)[0]);
    }
    if trimmed(s).len() == 0 {
        assert forall|i: int| 0 <= i < s.len() implies white(#[trigger] s[i]) by {
            if i < x.len() {
                assert(s[i] == x[i]);
            } else {
                assert(s[i] == y[i - x.len()]);
            }
        }
    }
}

/// What is logged: what the user says, what the assistant says and what fails, each under
/// its own name; nothing else.
pub proof fn lemma_logged(s: Seq<char>)
    ensures
        logged_by(ActionV::Send(s)) == Some(Said { role: "user"@, text: s }),
        logged_by(ActionV::Show(s)) == Some(Said { role: "assistant"@, text: s }),
        logged_by(ActionV::Report(s)) == Some(Said { role: "error"@, text: s }),
        logged_by(ActionV::Leave) is None,
        logged_by(ActionV::Repeat) is None,
        logged_by(ActionV::Renewed) is None,
{
}

// ------------------------------------------------------------------------------ a session

/// The identifier of a model is what stands between the quotes behind its first `"id":`.
pub proof fn lemma_model_id(a: Seq<char>, id: Seq<char>, b: Seq<char>)
    requires
        forall|i: int| 0 <= i < id.len() ==> #[trigger] id[i] != '"',
        next_at(a + "\"id\":\""@ + id + seq!['"'] + b, "\"id\":\""@, 0) == Some(a.len() as int),
    ensures
        model_id(a + "\"id\":\""@ + id + seq!['"'] + b) == id,
{
    reveal_strlit("\"id\":\"");
    let key = "\"id\":\""@;
    assert(key.len() == 6);
    let s = a + key + id + seq!['"'] + b;
    let k = a.len() as int;
    lemma_next_item(s, '"', k + 6);
    let e = k + 6 + id.len();
    assert(s[e] == '"');
    assert forall|i: int| k + 6 <= i < e implies #[trigger] s[i] != '"' by {
        assert(s[i] == id[i - (k + 6)]);
    }
    lemma_next_is(s, '"', k + 6, e);
    assert(s.subrange(k + 6, e) =~= id);
}

proof fn lemma_next_is(s: Seq<char>, c: char, i: int, e: int)
    requires
        0 <= i <= e < s.len(),
        s[e] == c,
        forall|j: int| i <= j < e ==> #[trigger] s[j] != c,
    ensures
        next_item(s, c, i) == Some(e),
    decreases e - i,
{
    if i < e {
        assert(s[i] != c);
        lemma_next_is(s, c, i + 1, e);
    }
}

/// Of the models that are described, the next one: a free one that can reason is taken at
/// once; one that can reason is kept as second choice unless there is one already; any
/// other is passed over.
pub proof fn lemma_next_model(s: Seq<char>, i: int, p: int, q: int, best: Option<Seq<char>>)
    requires
        0 <= i <= s.len(),
        next_item(s, '{', i) == Some(p),
        next_item(s, '}', p) == Some(q),
    ensures
        ({
            let obj = s.subrange(p, q);
            let id = model_id(obj);
            let free = next_at(obj, "\"free\""@, 0) is Some;
            let reasons = next_at(obj, "supportedReasoningEffort"@, 0) is Some;
            &&& id.len() > 0 && free && reasons ==> chosen_model(s, i, best) == Some(id)
            &&& id.len() > 0 && !free && reasons && best is None ==> chosen_model(s, i, best)
                == chosen_model(s, q, Some(id))
            &&& best is Some && !(free && reasons) ==> chosen_model(s, i, best) == chosen_model(
                s,
                q,
                best,
            )
            &&& id.len() == 0 || !reasons ==> chosen_model(s, i, best) == chosen_model(s, q, best)
        }),
{
    lemma_next_item(s, '{', i);
    lemma_next_item(s, '}', p);
}

/// Where no model is left, the second choice is taken.
pub proof fn lemma_last_model(s: Seq<char>, i: int, best: Option<Seq<char>>)
    requires
        0 <= i <= s.len(),
        next_item(s, '{', i) is None,
    ensures
        chosen_model(s, i, best) == best,
{
}

/// The first request carries the word `initial` for a token, and any later one its token.
pub proof fn lemma_token(t: String)
    ensures
        carried_token(None) == "initial"@,
        carried_token(Some(t)) == t@,
{
}

/// A challenge that is not solved is followed by another one, up to the fifth, which ends
/// the session with the error in words.
pub proof fn lemma_attempts(
    s: Session,
    after: Session,
    attempt: u32,
    e: FlowErr,
    r: Refresh,
)
    requires
        s.settled(after, attempt, Err(e), r),
    ensures
        after == s,
        attempt < 5 ==> r is Again && r->Again_0@ == e@,
        attempt >= 5 ==> r is Failed && r->Failed_0@ == FailureV::Session(e@.words()),
{
}

/// The events of a page, one more: behind a comma where it is not the first, with its time,
/// but no later than the end.
pub proof fn lemma_one_event(v: Seq<(String, u64)>, end: u64, n: int)
    requires
        0 <= n < v.len(),
    ensures
        event_list(v, end, 0) == Seq::<char>::empty(),
        n == 0 && v[0].1 <= end ==> event_list(v, end, 1) =~= "{\"name\":\""@ + v[0].0@
            + "\",\"delta\":"@ + decimal(v[0].1 as nat) + "}"@,
        n > 0 && v[n].1 <= end ==> event_list(v, end, n + 1) =~= event_list(v, end, n)
            + ",{\"name\":\""@ + v[n].0@ + "\",\"delta\":"@ + decimal(v[n].1 as nat) + "}"@,
        n > 0 && v[n].1 > end ==> event_list(v, end, n + 1) =~= event_list(v, end, n)
            + ",{\"name\":\""@ + v[n].0@ + "\",\"delta\":"@ + decimal(end as nat) + "}"@,
{
    reveal_strlit(",{\"name\":\"");
    reveal_strlit("{\"name\":\"");
    reveal_strlit(",");
    assert(",{\"name\":\""@ =~= ","@ + "{\"name\":\""@);
}

/// The signals of a page: when it was opened, its events, and how long it has been open.
pub proof fn lemma_signals(start: u64, now: u64, events: Seq<(String, u64)>)
    requires
        start <= now,
    ensures
        signals_text(start, now, events) == "{\"start\":"@ + decimal(start as nat)
            + ",\"events\":["@ + event_list(events, (now - start) as u64, events.len() as int)
            + "],\"end\":"@ + decimal((now - start) as nat) + "}"@,
        start < now ==> elapsed(now, start) == 0,
{
}

/// What fails is told apart by its first word.
pub proof fn lemma_failure_words(s: Seq<char>, ctx: Seq<char>, status: u16, n: u64, e: NetV)
    ensures
        NetV::Wreq(s).words() == "wreq: "@ + s,
        NetV::Empty(s).words() == "пустой ответ: "@ + s,
        (NetV::Status { ctx, status }).words() == "статус "@ + decimal(status as nat) + " на "@ + ctx,
        NetV::RespHeader(s).words() == "нет заголовка "@ + s + " в ответе"@,
        NetV::FirstByte(n).words() == "L7 hang: первый байт не пришёл за "@ + decimal(n as nat)
            + "с"@,
        NetV::Urandom(s).words() == "urandom: "@ + s,
        FailureV::Metric(s).words() == "метрика: "@ + s,
        FailureV::Session(s).words() == "сессия: "@ + s,
        FailureV::Net(e).words() == "сеть: "@ + e.words(),
{
}

/// A script is of use where its stack is known and its timeout is not zero; then everything
/// that it says is taken over, with the address that its hash gives it.
pub proof fn lemma_usable(r: Result<BundleFacts, Failure>, env: BundleEnv, hash: Seq<char>)
    requires
        usable(r, env, hash),
    ensures
        r is Ok <==> env.stack is Some && env.timing.timeout_ms > 0,
        env.stack is None ==> r->Err_0@ == FailureV::Metric("стек не извлечён из бандла"@),
        env.stack is Some && env.timing.timeout_ms == 0 ==> r->Err_0@ == FailureV::Metric(
            "таймаут гонки jsa не найден в бандле"@,
        ),
        r matches Ok(f) ==> f.stack == env.stack->0 && f.timing == env.timing && f.signal_events
            == env.signal_events && f.bundle_url@
            == "https://duck.ai/dist/duckai-dist/entry.duckai."@ + hash + ".js"@,
{
}

/// The stated duration is eight milliseconds and what the next random number leaves when it
/// is divided by half of the timeout; a number is drawn only where there is such a half.
pub proof fn lemma_stated_duration(s: Session, half: u64)
    requires
        s.facts.timing.timeout_ms == 2 * half || s.facts.timing.timeout_ms == 2 * half + 1,
    ensures
        half == 0 ==> s.stated_duration() == 8 && s.drawn() == s,
        half > 0 && next_state(s.rng) % half <= u64::MAX - 8 ==> s.stated_duration() == 8
            + next_state(s.rng) % half,
        half > 0 ==> s.drawn() == (Session { rng: next_state(s.rng), ..s }),
{
}

/// The generator: three shifts by thirteen, seven and seventeen places, to the left, to the
/// right and to the left, each joined with what was there. It takes the exclusive or of two
/// states to that of what follows them.
pub proof fn lemma_generator_steps(x: u64, y: u64, a: u64, b: u64)
    ensures
        a == x ^ (x << 13u64) && b == a ^ (a >> 7u64) ==> next_state(x) == b ^ (b << 17u64),
        next_state(0) == 0,
        next_state(x ^ y) == next_state(x) ^ next_state(y),
{
    assert(0u64 ^ (0u64 << 13u64) == 0) by (bit_vector);
    assert(0u64 ^ (0u64 >> 7u64) == 0) by (bit_vector);
    assert(0u64 ^ (0u64 << 17u64) == 0) by (bit_vector);
    let a1 = x ^ (x << 13u64);
    let a2 = y ^ (y << 13u64);
    let b1 = a1 ^ (a1 >> 7u64);
    let b2 = a2 ^ (a2 >> 7u64);
    assert((x ^ y) ^ ((x ^ y) << 13u64) == (x ^ (x << 13u64)) ^ (y ^ (y << 13u64))) by (bit_vector);
    assert((a1 ^ a2) ^ ((a1 ^ a2) >> 7u64) == (a1 ^ (a1 >> 7u64)) ^ (a2 ^ (a2 >> 7u64)))
        by (bit_vector);
    assert((b1 ^ b2) ^ ((b1 ^ b2) << 17u64) == (b1 ^ (b1 << 17u64)) ^ (b2 ^ (b2 << 17u64)))
        by (bit_vector);
}

/// A page is told apart by one of its events being called `impression`.
pub proof fn lemma_impression(v: Seq<String>)
    ensures
        has_impression(v) <==> exists|i: int| 0 <= i < v.len() && #[trigger] v[i]@ == "impression"@,
{
}

} // verus!
