use duckkit::chat::{unanswered, Silence, Step};
use duckkit::err::{Failure, Net};
use duckkit::floats::{ArithOp, Floats};
use duckkit::net::Page;
use duckkit::pipeline::bundle::{BundleEnv, StackFacts, Timing};
use duckkit::pipeline::flow::FlowErr;
use duckkit::pipeline::mba::Math;
use duckkit::pipeline::ops::Program;
use duckkit::session::{bundle_facts, find_default_model, usable_facts, BundleFacts, ChatOutcome, Refresh, Session};
use duckkit::solver::{sample_u64, seed_rng};

fn words(e: Failure) -> String {
    e.text()
}

fn page() -> Page {
    Page { be_version: "tag".into(), fe_chat_hash: "sha".into(), entry_bundle: "hash".into() }
}

fn env(timeout_ms: u64, stack: bool) -> BundleEnv {
    BundleEnv {
        stack: if stack { Some(StackFacts { fname: "f".into(), line: 2, col_error: 3, col_race: 4 }) } else { None },
        timing: Timing { timeout_ms, duration_delta: 0, macrotask_zero: true },
        fe_version_ok: true,
        signal_events: vec!["impression".into()],
    }
}

fn found() -> BundleFacts {
    usable_facts(env(500, true), "hash").map_err(words).unwrap()
}

const MODELS: &str = "[{\"id\":\"m1\",\"x\":\"free\"},{\"id\":\"m2\",\"e\":[\"supportedReasoningEffort\"]},{\"id\":\"m3\",\"free\":1,\"supportedReasoningEffort\":0}]";

fn session() -> Session {
    Session::start(&page(), found(), MODELS.as_bytes(), "journey".into(), "agent".into(), 1, 1000).map_err(words).unwrap()
}

fn arith(o: ArithOp, a: u64, b: u64) -> u64 {
    let (x, y) = (f64::from_bits(a), f64::from_bits(b));
    let r = match o {
        ArithOp::Add => x + y,
        ArithOp::Sub => x - y,
        ArithOp::Mul => x * y,
        ArithOp::Div => x / y,
        ArithOp::Rem => x % y,
        ArithOp::Pow => x.powf(y),
    };
    r.to_bits()
}

fn parse(s: &str) -> u64 {
    s.parse::<f64>().unwrap_or(f64::NAN).to_bits()
}

fn show(a: u64) -> String {
    format!("{}", f64::from_bits(a))
}

fn debug(a: u64) -> String {
    format!("{:?}", f64::from_bits(a))
}

fn nothing(_: &Vec<Math>) -> (Vec<Math>, String) {
    (vec![Math::Num(0)], "0".to_string())
}

fn no_code(_: u64, _: &Program, _: &Vec<u64>) -> Option<u64> {
    None
}

fn solve(s: &mut Session, challenge: &[u8], attempt: u32) -> Refresh {
    let fl = Floats { arith, parse, show, debug };
    s.solve(challenge, attempt, &fl, &nothing, &no_code)
}

fn outcome(s: Step) -> String {
    match s {
        Step::End(ChatOutcome::Finished) => "finished".to_string(),
        Step::End(ChatOutcome::Challenge) => "challenge".to_string(),
        Step::End(ChatOutcome::Failed(e)) => e,
        _ => panic!("not at the end"),
    }
}

#[test]
fn chooses_a_model() {
    let pick = |s: &str| find_default_model(s.as_bytes());
    assert_eq!(pick(MODELS), Some("m3".to_string()));
    assert_eq!(
        pick("{\"id\":\"a\"}{\"id\":\"b\",\"supportedReasoningEffort\"}{\"id\":\"c\",\"supportedReasoningEffort\"}"),
        Some("b".to_string())
    );
    assert_eq!(pick("{\"id\":\"a\",\"free\"}"), None);
    assert_eq!(pick("{\"id\":\"\",\"free\",\"supportedReasoningEffort\"}"), None);
    assert_eq!(pick("{\"supportedReasoningEffort\",\"free\",\"id\":\"open}"), Some("open".to_string()));
    assert_eq!(pick(""), None);
    assert_eq!(find_default_model(b"\xff"), None);
}

#[test]
fn takes_the_facts_of_a_script() {
    let f = found();
    assert_eq!(f.bundle_url, "https://duck.ai/dist/duckai-dist/entry.duckai.hash.js");
    assert_eq!(f.stack.fname, "f");
    assert_eq!(usable_facts(env(500, false), "h").err().map(words).unwrap(), "метрика: стек не извлечён из бандла");
    assert_eq!(usable_facts(env(0, true), "h").err().map(words).unwrap(), "метрика: таймаут гонки jsa не найден в бандле");
    assert_eq!(bundle_facts(&page(), b"\xff").err().map(words).unwrap(), "метрика: бандл не UTF-8");
    assert_eq!(bundle_facts(&page(), b"(((").err().map(words).unwrap(), "метрика: бандл не парсится oxc");
    assert_eq!(bundle_facts(&page(), b"1").err().map(words).unwrap(), "метрика: стек не извлечён из бандла");
}

#[test]
fn starts_a_session() {
    let s = session();
    let mut rng = 1u64;
    let delta = 60 + sample_u64(&mut rng, 360);
    assert_eq!(s.pending_events, vec![("impression".to_string(), delta)]);
    assert_eq!(s.rng, rng);
    assert_eq!(s.default_model, "m3");
    assert_eq!(s.fe_version, "tag-sha");
    assert_eq!(s.jsa_token(), None);
    assert_eq!(s.timing_facts().timeout_ms, 500);
    let mut quiet = found();
    quiet.signal_events = vec![];
    let s = Session::start(&page(), quiet, MODELS.as_bytes(), "j".into(), "u".into(), 7, 0).map_err(words).unwrap();
    assert_eq!((s.rng, s.pending_events.len()), (7, 0));
    let e = Session::start(&page(), found(), b"[]", "j".into(), "u".into(), 7, 0).err().map(words).unwrap();
    assert_eq!(e, "сессия: каталог моделей пуст или не распознан");
}

#[test]
fn reports_signals() {
    let mut s = session();
    s.pending_events = vec![("a".into(), 5), ("b".into(), 5000)];
    let sent = s.signals_b64(1100);
    let json = String::from_utf8(duckkit::b64::decode(sent.as_bytes()).unwrap()).unwrap();
    assert_eq!(json, "{\"start\":1000,\"events\":[{\"name\":\"a\",\"delta\":5},{\"name\":\"b\",\"delta\":100}],\"end\":100}");
    assert_eq!((s.signals_start, s.pending_events.len()), (1100, 0));
    let back = s.signals_b64(900);
    let json = String::from_utf8(duckkit::b64::decode(back.as_bytes()).unwrap()).unwrap();
    assert_eq!(json, "{\"start\":1100,\"events\":[],\"end\":0}");
}

#[test]
fn asks_with_its_token() {
    let mut s = session();
    let r = s.chat_request(1500);
    assert_eq!(r[4], ("X-Vqd-Hash-1", "initial".to_string()));
    assert_eq!(r[5], ("x-ddg-journey-id", "journey".to_string()));
    s.jsa = Some("tok".into());
    assert_eq!(s.chat_request(1500)[4].1, "tok");
    assert_eq!(s.status_request(1500)[2], ("x-fe-version", "tag-sha".to_string()));
}

#[test]
fn settles_what_solving_gave() {
    let mut s = session();
    assert!(matches!(s.settle(1, Ok("t".into())), Refresh::Solved));
    assert_eq!(s.jsa_token(), Some("t"));
    assert!(matches!(s.settle(4, Err(FlowErr::NoStrings)), Refresh::Again(FlowErr::NoStrings)));
    match s.settle(5, Err(FlowErr::NoStrings)) {
        Refresh::Failed(e) => assert_eq!(e.text(), "сессия: массив строк не найден"),
        _ => panic!("it did not fail"),
    }
    assert_eq!(s.jsa_token(), Some("t"));
}

#[test]
fn solves_challenges() {
    let mut s = session();
    match solve(&mut s, b"***", 1) {
        Refresh::Failed(e) => assert_eq!(e.text(), "метрика: челлендж не декодируется из base64"),
        _ => panic!("it did not fail"),
    }
    match solve(&mut s, b"/w==", 1) {
        Refresh::Failed(e) => assert_eq!(e.text(), "метрика: челлендж не UTF-8"),
        _ => panic!("it did not fail"),
    }
    let mut rng = s.rng;
    sample_u64(&mut rng, 250);
    assert!(matches!(solve(&mut s, b"MQ==", 1), Refresh::Again(FlowErr::NoStrings)));
    assert_eq!(s.rng, rng);
    s.facts.timing.timeout_ms = 1;
    assert!(matches!(solve(&mut s, b"MQ==", 5), Refresh::Failed(_)));
    assert_eq!(s.rng, rng);
}

#[test]
fn reads_the_page_again_twice() {
    let mut s = session();
    assert!(s.count_reboot().is_ok());
    assert!(s.count_reboot().is_ok());
    assert_eq!(s.count_reboot().err().map(words).unwrap(), "сессия: факты бандла пересобраны дважды — дальше бессмысленно");
    assert_eq!(s.facts_reboots, 2);
    let mut f = found();
    f.timing.timeout_ms = 77;
    f.bundle_url = "u2".into();
    s.adopt(&Page { be_version: "t2".into(), fe_chat_hash: "s2".into(), entry_bundle: "h2".into() }, f);
    assert_eq!((s.fe_version.as_str(), s.bundle_url.as_str(), s.facts.bundle_url.as_str()), ("t2-s2", "u2", "u2"));
    assert_eq!(s.timing_facts().timeout_ms, 77);
    assert_eq!(s.default_model, "m3");
}

#[test]
fn a_complete_answer_is_finished() {
    let mut s = session();
    let step = s.answered(200, None);
    assert_eq!(outcome(step), "finished");
    let step = s.answered(200, Some(b"c".to_vec()));
    assert!(matches!(step, Step::RenewNext));
    assert_eq!(s.take_pending(), Some(b"c".to_vec()));
    assert_eq!(s.take_pending(), None);
    let step = s.advance(step, false);
    assert_eq!(outcome(step), "finished");
    let step = s.answered(500, Some(b"c".to_vec()));
    assert_eq!(outcome(step), "duck статус 500");
    assert_eq!(s.pending, None);
}

#[test]
fn a_changed_page_is_read_again() {
    let mut s = session();
    let step = s.answered(410, Some(b"c".to_vec()));
    assert_eq!(s.pending, None);
    let step = s.advance(step, true);
    assert!(matches!(step, Step::RenewAfterRebuild));
    assert_eq!(s.pending, Some(b"c".to_vec()));
    assert_eq!(outcome(s.advance(step, true)), "challenge");
    let step = s.answered(410, None);
    assert_eq!(outcome(s.advance(step, false)), "410: пересборка фактов не удалась");
    assert_eq!(outcome(s.advance(Step::RenewAfterRebuild, false)), "410: jsa refresh после пересборки фактов не удался");
}

#[test]
fn a_refused_token_is_renewed() {
    for status in [418u16, 429] {
        let mut s = session();
        let step = s.answered(status, Some(b"c".to_vec()));
        assert_eq!(s.pending, Some(b"c".to_vec()));
        assert!(matches!(step, Step::Renew));
        let step = s.advance(step, false);
        assert!(matches!(step, Step::RebuildAfterFailure));
        let step = s.advance(step, false);
        assert!(matches!(step, Step::RenewAgain));
        assert_eq!(s.pending, None);
        assert_eq!(outcome(s.advance(step, false)), "jsa refresh после 418/429 не удался");
        assert_eq!(outcome(s.advance(Step::RenewAgain, true)), "challenge");
        assert_eq!(outcome(s.advance(Step::Renew, true)), "challenge");
    }
}

#[test]
fn silence_is_asked_again() {
    assert!(matches!(unanswered(1, Net::FirstByte(12)), Silence::Wait(500)));
    assert!(matches!(unanswered(2, Net::FirstByte(12)), Silence::Wait(500)));
    match unanswered(3, Net::FirstByte(12)) {
        Silence::End(ChatOutcome::Failed(e)) => assert_eq!(e, "L7 hang: первый байт не пришёл за 12с"),
        _ => panic!("it did not end"),
    }
    match unanswered(1, Net::Wreq("x".into())) {
        Silence::End(ChatOutcome::Failed(e)) => assert_eq!(e, "wreq: x"),
        _ => panic!("it did not end"),
    }
}

#[test]
fn draws_numbers() {
    assert_eq!(seed_rng(None), 0x9E37_79B9_7F4A_7C15);
    let mut rng = 1u64;
    assert_eq!(sample_u64(&mut rng, 0), 0);
    assert_eq!(rng, 1);
    let mut x = 1u64;
    x ^= x << 13;
    x ^= x >> 7;
    x ^= x << 17;
    assert_eq!(sample_u64(&mut rng, 1000), x % 1000);
    assert_eq!(rng, x);
    for _ in 0..1000 {
        assert!(sample_u64(&mut rng, 7) < 7);
        assert_ne!(rng, 0);
    }
}
