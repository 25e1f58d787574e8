use duckkit::jsnum::json_escape_into;
use duckkit::wire;
use duckkit::wire::{duck_body, json_unescape_into, parse_ddg_frame, strip_inline_markers, BodySpec, Ev, WireMsg};

fn event(line: &[u8]) -> Option<String> {
    let mut scratch = Vec::new();
    parse_ddg_frame(line, &mut scratch).map(|e| format!("{e:?}"))
}

fn part(t: &str) -> Option<String> {
    Some(format!("{:?}", Ev::Part(t)))
}

fn strip(s: &str) -> String {
    let mut out = "what was there".to_string();
    strip_inline_markers(s, &mut out);
    out
}

#[test]
fn writes_a_request() {
    let msgs = vec![
        WireMsg { role: "user".into(), text: "a\"b\\c\n\r\t\u{8}é".into() },
        WireMsg { role: "assistant".into(), text: "ok".into() },
    ];
    let id = *b"01234567-89ab-4cde-8f01-23456789abcd";
    let body = duck_body(&BodySpec { model: "m1", reasoning: "none", msgs: &msgs, window_id: id });
    let expected = concat_all(&[
        "{\"model\":\"m1\",\"metadata\":{\"toolChoice\":{\"NewsSearch\":false,\"VideosSearch\":false,\"LocalSearch\":false,\"WeatherForecast\":false}},\"messages\":[",
        "{\"role\":\"user\",\"content\":[{\"type\":\"text\",\"text\":\"a\\\"b\\\\c\\n\\r\\t\\u0008é\"}],\"windowID\":\"01234567-89ab-4cde-8f01-23456789abcd\"},",
        "{\"role\":\"assistant\",\"content\":\"\",\"parts\":[{\"type\":\"text\",\"text\":\"ok\"}],\"windowID\":\"01234567-89ab-4cde-8f01-23456789abcd\"}",
        "],\"canUseTools\":true,\"reasoningEffort\":\"none\",\"canUseApproxLocation\":null,\"canDelegateImageGeneration\":false,\"canUseWebSearch\":false,\"canUploadFiles\":false,\"canShowGreeting\":false}",
    ]);
    assert_eq!(String::from_utf8(body).unwrap(), expected);
    let none = duck_body(&BodySpec { model: "m", reasoning: "r", msgs: &[], window_id: id });
    assert!(String::from_utf8(none).unwrap().contains("\"messages\":[],\"canUseTools\""));
}

fn concat_all(parts: &[&str]) -> String {
    parts.concat()
}

#[test]
fn reads_frames() {
    assert_eq!(event(b"[DONE]"), Some("Done".to_string()));
    assert_eq!(event(b""), Some("Done".to_string()));
    assert_eq!(event(b"[PING]"), None);
    assert_eq!(event(b"{\"message\":\"hi\"}"), part("hi"));
    assert_eq!(event(b"{\"role\":\"assistant\", \"message\" \t: \t\"hi\",\"x\":1}"), part("hi"));
    assert_eq!(event(b"{\"message\":\"\"}"), None);
    assert_eq!(event(b"{\"message\":\"\xff\"}"), None);
    assert_eq!(event(b"{\"x\":\"\\\"message\\\":\\\"no\\\"\"}"), None);
    assert_eq!(event(b"{\"message\":5,\"y\":{\"message\":\"in\"}}"), part("in"));
    assert_eq!(
        event(b"{\"role\":\"reasoning\",\"text\":\"why\"}"),
        Some(format!("{:?}", Ev::Reasoning("why")))
    );
    assert_eq!(event(b"{\"role\":\"reasoning\"}"), None);
    assert_eq!(event(b"{\"role\":\"user\",\"text\":\"why\"}"), None);
    assert_eq!(event(b"{\"message\":\"open"), None);
}

#[test]
fn reads_escapes() {
    assert_eq!(event(b"{\"message\":\"\\\"\\\\\\/\\b\\f\\n\\r\\t\"}"), part("\"\\/\u{8}\u{c}\n\r\t"));
    assert_eq!(event(b"{\"message\":\"\\u0041\\u00e9\\u20ac\"}"), part("A\u{e9}\u{20ac}"));
    assert_eq!(event(b"{\"message\":\"\\ud83d\\ude00\"}"), part("\u{1f600}"));
    assert_eq!(event(b"{\"message\":\"\\ud83d\\ude00abcdef\"}"), part("\u{1f600}ef"));
    assert_eq!(event(b"{\"message\":\"\\ud83dx\"}"), part("\u{fffd}x"));
    assert_eq!(event(b"{\"message\":\"\\ud83d\\u0041\"}"), part("\u{fffd}A"));
    assert_eq!(event(b"{\"message\":\"\\ude00x\"}"), part("\u{fffd}x"));
    assert_eq!(event(b"{\"message\":\"a\\qb\"}"), part("a\\b"));
}

#[test]
fn what_is_escaped_is_read_back() {
    let texts = ["plain", "q\"q\\b\n\r\t\u{1}\u{8}\u{c}\u{1f}", "é\u{20ac}\u{1f600}", "/"];
    for t in texts {
        let mut raw = b"{\"message\":\"".to_vec();
        json_escape_into(t.as_bytes(), &mut raw);
        raw.extend_from_slice(b"\"}");
        assert_eq!(event(&raw), part(t));
        let id = [b'0'; 36];
        let msgs = [WireMsg { role: "user".into(), text: t.into() }];
        let body = duck_body(&BodySpec { model: "m", reasoning: "r", msgs: &msgs, window_id: id });
        let body = String::from_utf8(body).unwrap().replacen("\"text\":\"", "\"message\":\"", 1);
        assert_eq!(event(body.as_bytes()), part(t));
    }
}

#[test]
fn strips_markers() {
    assert_eq!(strip("plain text"), "plain text");
    assert_eq!(strip("a[ADS]b"), "ab");
    assert_eq!(strip("[LIMIT_5]x[STOP_REASON:len]y[CHAT_TITLE: hi]"), "xy");
    assert_eq!(strip("[ADSX][1] list[0]"), "[ADSX][1] list[0]");
    assert_eq!(strip("open [LIMIT_"), "open [LIMIT_");
    assert_eq!(strip("[[ADS]]"), "[[ADS]]");
    assert_eq!(strip("é[]ü"), "é[]ü");
    assert_eq!(strip(""), "");
}

#[test]
fn escaped_bytes_are_read_back() {
    let raw: Vec<u8> = (0..=255u8).chain(*b"\\u0041\\").collect();
    let mut escaped = Vec::new();
    wire::json_escape_into(&raw, &mut escaped);
    assert_ne!(escaped, raw);
    let mut out = b"kept".to_vec();
    json_unescape_into(&escaped, &mut out);
    assert_eq!(&out[..4], b"kept");
    assert_eq!(&out[4..], &raw[..]);
}

#[test]
fn stripping_twice_is_stripping_once() {
    for s in ["[[ADS]x[ADS]y", "[a][LIMIT_1[ADS]]", "[[ADS]]ADS]", "x[STOP_REASON][b", "[ADS][ADS"] {
        let once = strip(s);
        assert_eq!(strip(&once), once);
    }
    assert_eq!(strip("[[ADS]x[ADS]y"), "[[ADS]xy");
}
