use duckkit::err::{Failure, Net};
use duckkit::ident::{journey_hex, millis, now_ms, seed, uuid_v4};
use duckkit::net::{body_of, challenge_of, header_ci, page_of, Page, Resp, Sse};
use duckkit::request::{
    after_failure, bundle_headers, bundle_link, chat_headers, endpoint, exhausted, header_order, models_headers, page_headers,
    status_headers, Retry,
};

fn resp(status: u16, body: &str) -> Resp {
    Resp { status, headers: vec![], body: body.as_bytes().to_vec() }
}

fn text(e: Net) -> String {
    e.text()
}

const HTML: &str = "<html data-version-tag=\"serp_1\" data-version-sha=\"abc9\"><script src=\"/dist/entry.duckai.short.js\"></script><script src=\"/dist/entry.duckai.0123456789abcdef01.js\"></script>";

#[test]
fn tells_the_version() {
    let page = |a: &str, b: &str| Page { be_version: a.into(), fe_chat_hash: b.into(), entry_bundle: String::new() };
    assert_eq!(page("t", "s").fe_version(), "t-s");
    assert_eq!(page("", "").fe_version(), "dev-hash");
}

#[test]
fn reads_the_start_page() {
    let p = page_of(&resp(200, HTML)).map_err(text).unwrap();
    assert_eq!((p.be_version.as_str(), p.fe_chat_hash.as_str()), ("serp_1", "abc9"));
    assert_eq!(p.entry_bundle, "0123456789abcdef01");
    assert_eq!(page_of(&resp(503, HTML)).err().map(text).unwrap(), "статус 503 на duck.ai HTML");
    assert_eq!(
        page_of(&resp(200, "entry.duckai.0123456789abcde.js")).err().map(text).unwrap(),
        "пустой ответ: entry.duckai.<hash>.js не найден в HTML"
    );
    assert_eq!(
        page_of(&resp(200, "data-version-tag=\"x\" entry.duckai.0123456789abcdef.js")).err().map(text).unwrap(),
        "пустой ответ: data-version-tag/sha не найдены"
    );
    let mut bad = resp(200, HTML);
    let at = HTML.find("serp_1").unwrap();
    bad.body[at] = 0xff;
    assert_eq!(page_of(&bad).map_err(text).unwrap().be_version, "\u{fffd}erp_1");
}

#[test]
fn reads_answers() {
    let mut r = resp(200, "body");
    r.headers = vec![("X-Other".into(), "1".into()), ("X-VQD-Hash-1".into(), "ch".into()), ("x-vqd-hash-1".into(), "no".into())];
    assert_eq!(header_ci(&r.headers, "x-vqd-hash-1"), Some("ch"));
    assert_eq!(header_ci(&r.headers, "missing"), None);
    assert_eq!(challenge_of(&r).map_err(text).unwrap(), b"ch");
    assert_eq!(challenge_of(&resp(200, "")).err().map(text).unwrap(), "нет заголовка x-vqd-hash-1 в ответе");
    assert_eq!(challenge_of(&resp(404, "")).err().map(text).unwrap(), "статус 404 на status");
    assert_eq!(body_of(r, "models").map_err(text).unwrap(), b"body");
    assert_eq!(body_of(resp(500, ""), "models").err().map(text).unwrap(), "статус 500 на models");
}

#[test]
fn words_the_errors() {
    assert_eq!(Net::Wreq("x".into()).text(), "wreq: x");
    assert_eq!(Net::FirstByte(12).text(), "L7 hang: первый байт не пришёл за 12с");
    assert_eq!(Net::Urandom("os entropy".into()).text(), "urandom: os entropy");
    assert_eq!(Failure::Metric("m".into()).text(), "метрика: m");
    assert_eq!(Failure::Session("s".into()).text(), "сессия: s");
    assert_eq!(Failure::from(Net::RespHeader("h")).text(), "сеть: нет заголовка h в ответе");
}

#[test]
fn cuts_a_stream_into_data() {
    let mut s = Sse::new();
    assert_eq!(s.chunk(b"data: on"), Vec::<Vec<u8>>::new());
    assert_eq!(s.chunk(b"e\r\nevent: x\n\ndata:two\ndata:"), vec![b"one".to_vec(), b"two".to_vec()]);
    assert_eq!(s.chunk(b"   three  \nda"), vec![b"three  ".to_vec()]);
    assert_eq!(s.tail, b"da");
    assert_eq!(s.finish(), Vec::<Vec<u8>>::new());
}

#[test]
fn the_cut_of_a_stream_does_not_matter() {
    let all = b"data: a\r\ndata:b\nx\ndata:  c\n\ndata: tail".to_vec();
    let mut whole = Sse::new();
    let expected = whole.chunk(&all);
    assert_eq!(expected, vec![b"a".to_vec(), b"b".to_vec(), b"c".to_vec()]);
    for i in 0..=all.len() {
        for j in i..=all.len() {
            let mut s = Sse::new();
            let mut got = s.chunk(&all[..i]);
            got.extend(s.chunk(&all[i..j]));
            got.extend(s.chunk(&all[j..]));
            assert_eq!(got, expected);
            assert_eq!(s.tail, b"data: tail");
        }
    }
}

#[test]
fn makes_identifiers() {
    let mut e = [0u8; 16];
    for (i, x) in e.iter_mut().enumerate() {
        *x = (i * 17) as u8;
    }
    let mut j = [0u8; 32];
    assert!(journey_hex(Some(e), &mut j).is_ok());
    assert_eq!(&j, b"00112233445566778899aabbccddeeff");
    let mut u = [0u8; 36];
    assert!(uuid_v4(Some(e), &mut u).is_ok());
    assert_eq!(&u, b"00112233-4455-4677-8899-aabbccddeeff");
    let mut u = [0u8; 36];
    assert!(uuid_v4(Some([0xff; 16]), &mut u).is_ok());
    assert_eq!(&u, b"ffffffff-ffff-4fff-bfff-ffffffffffff");
    let mut j = [7u8; 32];
    assert_eq!(journey_hex(None, &mut j).err().map(text).unwrap(), "urandom: os entropy");
    assert_eq!(j, [7u8; 32]);
    let mut u = [7u8; 36];
    assert_eq!(uuid_v4(None, &mut u).err().map(text).unwrap(), "urandom: os entropy");
}

#[test]
fn seeds_and_times() {
    assert_eq!(seed(Some([1, 2, 3, 4, 5, 6, 7, 8])), 0x0807_0605_0403_0201);
    assert_eq!(seed(None), 0x9E37_79B9_7F4A_7C15);
    assert_eq!(millis(None), 0);
    assert_eq!(millis(Some(12)), 12);
    assert_eq!(millis(Some((1u128 << 64) + 5)), 5);
    let at = std::time::SystemTime::now().duration_since(std::time::UNIX_EPOCH).unwrap().as_millis() as u64;
    let now = now_ms();
    assert!(now >= at && now - at < 60_000);
}

#[test]
fn orders_the_headers() {
    let plain: Vec<(&'static str, String)> = vec![("X-Mine", "1".into()), ("ACCEPT", "2".into())];
    assert_eq!(
        header_order(&plain, true),
        vec![
            "sec-ch-ua",
            "sec-ch-ua-mobile",
            "sec-ch-ua-platform",
            "upgrade-insecure-requests",
            "User-Agent",
            "ACCEPT",
            "sec-fetch-site",
            "sec-fetch-mode",
            "sec-fetch-user",
            "sec-fetch-dest",
            "accept-language",
            "priority",
            "X-Mine",
        ]
    );
    assert_eq!(header_order(&[], false)[4], "user-agent");
    let own: Vec<(&'static str, String)> = vec![("USER-AGENT", "1".into())];
    assert_eq!(header_order(&own, true)[4], "USER-AGENT");
}

#[test]
fn writes_the_requests() {
    assert_eq!(bundle_link("h"), "https://duck.ai/dist/duckai-dist/entry.duckai.h.js");
    assert_eq!(endpoint("status"), "https://duck.ai/duckchat/v1/status");
    assert_eq!(page_headers()[1], ("accept-language", "en-US,en;q=0.9".to_string()));
    assert_eq!(bundle_headers()[0], ("accept", "*/*".to_string()));
    assert_eq!(models_headers("j")[1], ("x-ddg-journey-id", "j".to_string()));
    let s = status_headers("j", "v", "sig");
    assert_eq!(s[2], ("x-fe-version", "v".to_string()));
    assert_eq!(s[3], ("x-fe-signals", "sig".to_string()));
    let c = chat_headers("v", "sig".into(), "tok".into(), "j");
    assert_eq!(c[4], ("X-Vqd-Hash-1", "tok".to_string()));
    assert_eq!(c.len(), 8);
}

#[test]
fn repeats_failed_requests() {
    assert!(matches!(after_failure(0, Net::Wreq("x".into())), Retry::Wait(400)));
    assert!(matches!(after_failure(3, Net::Empty("x".into())), Retry::Wait(1300)));
    match after_failure(0, Net::RespHeader("h")) {
        Retry::Stop(e) => assert_eq!(e.text(), "нет заголовка h в ответе"),
        Retry::Wait(_) => panic!("no error was kept"),
    }
    assert_eq!(exhausted("status", 4).text(), "пустой ответ: hang status после 4 попыток");
}
