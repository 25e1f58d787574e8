use duckkit::floats::{ArithOp, Floats};
use duckkit::pipeline::deob;
use duckkit::pipeline::flow::{run, FlowErr, Model};
use duckkit::pipeline::mba::Math;
use duckkit::pipeline::ops::Program;
use duckkit::pipeline::probes::Read;
use duckkit::session::{Refresh, Session};
use duckkit::solver::{sample_u64, seal, token, Facts};

fn arith(o: ArithOp, a: u64, b: u64) -> u64 {
    let (x, y) = (f64::from_bits(a), f64::from_bits(b));
    let r = match o {
        ArithOp::Add => x + y,
        ArithOp::Sub => x - y,
        ArithOp::Mul => x * y,
        ArithOp::Div => x / y,
        ArithOp::Rem => x % y,
        ArithOp::Pow => x.powf(y),
    };
    r.to_bits()
}

fn parse(s: &str) -> u64 {
    s.parse::<f64>().unwrap_or(f64::NAN).to_bits()
}

fn show(a: u64) -> String {
    format!("{}", f64::from_bits(a))
}

fn debug(a: u64) -> String {
    format!("{:?}", f64::from_bits(a))
}

fn copy(v: &Vec<Math>) -> (Vec<Math>, String) {
    let nodes = v
        .iter()
        .map(|m| match m {
            Math::Num(n) => Math::Num(*n),
            Math::Var(s) => Math::Var(s.clone()),
            Math::Neg(a) => Math::Neg(*a),
            Math::Bin { op, l, r } => Math::Bin { op: *op, l: *l, r: *r },
        })
        .collect();
    (nodes, "(as it stands)".to_string())
}

fn no_code(_: u64, _: &Program, _: &Vec<u64>) -> Option<u64> {
    None
}

fn model(src: &str, attrs: &[(String, String)], globals: &[String]) -> Result<Model, FlowErr> {
    let fl = Floats { arith, parse, show, debug };
    run(src, attrs, globals, &fl, &copy, &no_code)
}

/// A challenge with these probes.
fn challenge(probes: &str) -> String {
    let head = r#"(async function(){
  const t = dec;
  (function(src, goal){
    const q = dec, arr = src();
    while(!![]){
      try{
        const sum = parseInt(q(0x100))/0x1 + -parseInt(q(0x101))/0x2*(parseInt(q(0x102))/0x3);
        if(sum===goal)break;else arr['push'](arr['shift']());
      }catch(e){arr['push'](arr['shift']());}
    }
  }(table, 0x10));
  function dec(i, k){const s = table();return dec = function(i, k){i = i - 0x100;let v = s[i];return v;}, dec(i, k);}
  function table(){const s = ['s18', 's19', '20x', '8y', '3z', 'alpha', 'beta', 's5', 's6', 's7', 's8', 's9', 's10', 's11', 's12', 's13', 's14', 's15', 's16', 's17'];table = function(){return s;};return table();}
  const key = 'kéy';
  const data = {};
  return {
    'server_hashes': [t(0x103), t(0x104), 'three'],
    'client_hashes': await Promise.all(["#;
    let tail = r#"]),
    'signals': {},
    'meta': {'v': '4', 'challenge_id': 'id-1', 'timestamp': '1700000000000',
      'debug': JSON.stringify(data).split('').map((c, i) => String.fromCharCode(c.charCodeAt(0) ^ key.charCodeAt(i % key.length))).join('')}
  };
})()"#;
    format!("{head}{probes}{tail}")
}

const SUM: &str =
    "navigator.userAgent, (function(){return String([1 === 1, navigator.webdriver === true, 0].map(Number).reduce((a, b) => a + b, 0x64));})()";

fn some_bits(x: f64) -> Option<u64> {
    Some(x.to_bits())
}

#[test]
fn models_a_challenge() {
    let m = model(&challenge(SUM), &[], &[]).map_err(|e| e.text()).unwrap();
    assert_eq!(m.rotation, 2);
    assert!(m.rotate_left);
    assert_eq!(m.strings.len(), 20);
    assert_eq!(m.strings[..6], ["20x", "8y", "3z", "alpha", "beta", "s5"]);
    assert_eq!(m.strings[18..], ["s18", "s19"]);
    assert_eq!(f64::from_bits(m.delta), 256.0);
    assert_eq!(f64::from_bits(m.target), 16.0);
    assert_eq!(m.server_hashes, vec!["alpha", "beta", "three"]);
    assert_eq!(m.v, "4");
    assert_eq!(m.challenge_id, "id-1");
    assert_eq!(m.timestamp, "1700000000000");
    assert_eq!(m.key, "k\u{e9}y");
    assert!(m.ua_first);
    assert_eq!(m.probes.len(), 1);
    assert_eq!(m.probes[0].base, some_bits(100.0));
    assert_eq!(m.probes[0].value, some_bits(101.0));
    assert_eq!(m.egg.canonical_sexpr, "(as it stands)");
    let vars: Vec<f64> = m.checksum_vars.iter().map(|b| f64::from_bits(*b)).collect();
    assert_eq!(vars, vec![20.0, 8.0, 3.0]);
}

fn failure(src: &str) -> String {
    match model(src, &[], &[]) {
        Ok(_) => panic!("the challenge was modelled"),
        Err(e) => e.text(),
    }
}

fn probe_value(probe: &str, attrs: &[(String, String)], globals: &[String]) -> Option<f64> {
    let m = model(&challenge(probe), attrs, globals).map_err(|e| e.text()).unwrap();
    assert_eq!(m.probes.len(), 1);
    m.probes[0].value.map(f64::from_bits)
}

fn sum_of(checks: &str) -> Option<f64> {
    let p = format!("(function(){{return String([{checks}].map(Number).reduce((a, b) => a + b, 10));}})()");
    probe_value(&p, &[], &[])
}

#[test]
fn makes_a_token() {
    let fl = Floats { arith, parse, show, debug };
    let src = challenge(SUM);
    let t = token(&src, "abc", &Facts::fixture(), 23, &fl, &copy, &no_code).map_err(|e| e.text()).unwrap();
    let json = String::from_utf8(duckkit::b64::decode(t.as_bytes()).unwrap()).unwrap();
    let probe = duckkit::sha::sha256_b64(b"101");
    let url = "https://duck.ai/dist/duckai-dist/entry.duckai.c51e9bb9ebdb169571b0.js";
    let expected = format!(
        "{{\"server_hashes\":[\"alpha\",\"beta\",\"three\"],\"client_hashes\":[\"ungWv48Bz+pBQUDeXa4iI7ADYaOWF3qctBD/YfIAFa0=\",\"{probe}\"],\
         \"signals\":{{}},\"meta\":{{\"v\":\"4\",\"challenge_id\":\"id-1\",\"timestamp\":\"1700000000000\",\"debug\":\"\\u0010\u{94}\",\
         \"origin\":\"https://duck.ai\",\"stack\":\"Error\\n    at l ({url}:1:5)\\n    at async {url}:1:17\",\"duration\":\"23\"}}}}"
    );
    assert_eq!(json, expected);
}

#[test]
fn no_token_without_a_key_or_with_an_open_probe() {
    let fl = Floats { arith, parse, show, debug };
    let open = challenge("mystery()");
    let e = token(&open, "abc", &Facts::fixture(), 1, &fl, &copy, &no_code).err().unwrap();
    assert_eq!(e.text(), "вне модели: проба не решается структурно");
    let keyless = challenge(SUM).replace("'kéy'", "''");
    let m = model(&keyless, &[], &[]).map_err(|e| e.text()).unwrap();
    let e = seal(&m, "abc", &Facts::fixture(), 1, &fl).err().unwrap();
    assert_eq!(e.text(), "payload: пустой ключ");
}

#[test]
fn names_what_is_missing() {
    assert!(failure("(((").starts_with("не JS (oxc): "));
    assert_eq!(failure("1"), "массив строк не найден");
    let whole = challenge(SUM);
    assert_eq!(
        failure(&whole.replace("i = i - 0x100;", "")),
        "декодер не найден: нет функции с самотрансформацией индекса"
    );
    assert_eq!(
        failure(&whole.replace("shift", "slice")),
        "ротатор не найден: нет IIFE (fn(arr,target)) с push/shift и checksum-вызовом декодера"
    );
    assert_eq!(
        failure(&whole.replace("(table, 0x10)", "(table, 0x11)")),
        "ротация: цель 17, лучший k=Some(2) |Δ|=1"
    );
    assert_eq!(
        failure(&whole.replace("'20x'", "'x'")),
        "ротация: цель 16, лучший k=None |Δ|=NaN"
    );
    assert_eq!(failure(&whole.replace("^", "|")), "payload: XOR-ключ debug не найден");
    assert_eq!(failure(&whole.replace(", 'three'", "")), "payload: server_hashes: 2 шт");
    assert_eq!(failure(&whole.replace("'id-1'", "''")), "payload: challenge_id/timestamp пусты");
    assert_eq!(failure(&whole.replace("Promise.all", "Promise.race")), "вне модели: Promise.all не найден");
}

#[test]
fn turns_to_the_right_too() {
    let left = challenge(SUM);
    let right = left.replace("'push'", "'unshift'").replace("'shift'", "'pop'");
    let m = model(&right, &[], &[]).map_err(|e| e.text()).unwrap();
    assert_eq!(m.rotation, 18);
    assert!(!m.rotate_left);
    assert_eq!(m.strings[..3], ["20x", "8y", "3z"]);
    assert_eq!(m.server_hashes, vec!["alpha", "beta", "three"]);
}

#[test]
fn native_code_takes_over_only_where_it_agrees() {
    let fl = Floats { arith, parse, show, debug };
    let src = challenge(SUM);
    let calls = std::cell::Cell::new(0usize);
    let wrong = |_: u64, _: &Program, _: &Vec<u64>| {
        calls.set(calls.get() + 1);
        Some(0u64)
    };
    let m = run(&src, &[], &[], &fl, &copy, &wrong).map_err(|e| e.text()).unwrap();
    assert_eq!((m.rotation, calls.get()), (2, 1));
    let calls = std::cell::Cell::new(0usize);
    let right = |_: u64, p: &Program, v: &Vec<u64>| {
        calls.set(calls.get() + 1);
        let fl = Floats { arith, parse, show, debug };
        Some(p.eval(v, &fl))
    };
    let m = run(&src, &[], &[], &fl, &copy, &right).map_err(|e| e.text()).unwrap();
    assert_eq!((m.rotation, calls.get()), (2, 3));
}

#[test]
fn sums_what_the_checks_come_to() {
    assert_eq!(sum_of("true, false, 1, '', null"), Some(12.0));
    assert_eq!(sum_of("window.x === window.x + 1"), Some(10.0));
    assert_eq!(sum_of("Object.isSealed(a), navigator.webdriver"), Some(10.0));
    assert_eq!(sum_of("getComputedStyle(a).getPropertyValue('x') === 'y'"), Some(11.0));
    assert_eq!(sum_of("f.toString().includes('[native code]'), x === '[object Window]', y === 'NodeList'"), Some(13.0));
    assert_eq!(sum_of("!Array.isArray(document.querySelectorAll('x')), Error.captureStackTrace, a instanceof B"), Some(13.0));
    assert_eq!(sum_of("(function(){return this;})() === window"), Some(11.0));
    assert_eq!(sum_of("mystery(1)"), None);
}

#[test]
fn layout_counts_only_where_it_is_attached_and_styled() {
    let bare = "(function(){const e = d();return String([e.offsetWidth].map(Number).reduce((a, b) => a + b, 10));})()";
    assert_eq!(probe_value(bare, &[], &[]), Some(10.0));
    let laid = "(function(){const e = d();e.style.cssText = 'x';p.appendChild(e);return String([e.offsetWidth].map(Number).reduce((a, b) => a + b, 10));})()";
    assert_eq!(probe_value(laid, &[], &[]), Some(11.0));
}

#[test]
fn compares_with_the_facts_of_the_page() {
    let p = "(function(){return String([e.getAttribute('sandbox') === 'allow', window.top.hasOwnProperty('glob')].map(Number).reduce((a, b) => a + b, 10));})()";
    assert_eq!(probe_value(p, &[], &[]), Some(10.0));
    let attrs = vec![("sandbox".to_string(), "allow".to_string())];
    let globals = vec!["glob".to_string()];
    assert_eq!(probe_value(p, &attrs, &[]), Some(11.0));
    assert_eq!(probe_value(p, &attrs, &globals), Some(12.0));
    let other = vec![("sandbox".to_string(), "deny".to_string())];
    assert_eq!(probe_value(p, &other, &globals), Some(11.0));
}

#[test]
fn measures_a_fragment() {
    let p = "(function(){const e = document.createElement('div');e.innerHTML = '<b>x</b><i>y</i>';return String(5 + e.innerHTML.length * e.querySelectorAll('*').length);})()";
    assert_eq!(probe_value(p, &[], &[]), Some(5.0 + 16.0 * 2.0));
}

#[test]
fn a_probe_that_reads_the_agent_stays_open() {
    let p = "(function(){return String([navigator.userAgent === 'x'].map(Number).reduce((a, b) => a + b, 7));})()";
    let m = model(&challenge(p), &[], &[]).map_err(|e| e.text()).unwrap();
    assert!(!m.ua_first);
    assert_eq!(m.probes[0].base, some_bits(7.0));
    assert_eq!(m.probes[0].value, None);
    assert!(matches!(m.probes[0].reads[..], [Read::NavUa]));
}

#[test]
fn writes_the_challenge_as_code() {
    let fl = Floats { arith, parse, show, debug };
    let out = deob::run(challenge(SUM).as_bytes(), &fl, &copy, &no_code).map_err(|e| e.text()).unwrap();
    let lines: Vec<&str> = out.lines().collect();
    assert_eq!(lines[0], "// duckkit 13 — деобфускация (oxc → const-prop → slice → egg)");
    assert!(lines[1].starts_with("// family="));
    assert!(lines[1].ends_with(" rotation=2 (left) target=16"));
    assert_eq!(lines[2], "// canonical: (as it stands)");
    assert_eq!(lines[3], "");
    assert!(lines[4].starts_with("const STRINGS = [\"20x\", \"8y\", \"3z\", "));
    assert_eq!(lines[5], "const key = \"kéy\";");
    assert_eq!(lines[6], "const challenge_id = \"id-1\";");
    assert_eq!(lines[7], "const timestamp = \"1700000000000\";");
    assert_eq!(lines[8], "const server_hashes = [\"alpha\", \"beta\", \"three\"];");
    assert_eq!(lines[11], "// probe[0] base=Some(100.0) value=Some(101.0)");
    assert!(out.contains("server_hashes: [\"alpha\", \"beta\", \"three\"]"));
    let e = deob::run(b"\xff", &fl, &copy, &no_code).err().unwrap();
    assert_eq!(e.text(), "не JS (oxc): не UTF-8");
}

fn with_statements(s: &str) -> String {
    challenge(SUM).replace("const data = {};", &format!("const data = {{}};{s}"))
}

/// The statements as they come out of the folding, line by line.
fn folded(s: &str) -> Vec<String> {
    let fl = Floats { arith, parse, show, debug };
    let out = deob::run(with_statements(s).as_bytes(), &fl, &copy, &no_code).map_err(|e| e.text()).unwrap();
    let body = out.split("const data = {};;\n").nth(1).unwrap();
    let end = body.find("return {server_hashes").unwrap();
    body[..end].lines().map(|l| l.to_string()).collect()
}

fn refused(s: &str) -> String {
    failure(&with_statements(s))
}

#[test]
fn folds_expressions() {
    assert_eq!(folded("x = 1 + 2 * 3;"), ["x = 7;"]);
    assert_eq!(folded("f('a' + 1, 1 + 'b', 'c' + 'd', 2 ** 3, 7 % 4, 1 / 4);"), ["f(\"a1\", \"1b\", \"cd\", 8, 3, 0.25);"]);
    assert_eq!(
        folded("g(1 === 1, 1 == '1', null == undefined, 2 < 3, 'a' === 'b', 1 !== 2, null === 0);"),
        ["g(true, 1 == \"1\", true, true, false, true, false);"]
    );
    assert_eq!(
        folded("k(typeof 1, typeof x2, void 0, -'5', +'5', ~1, !x3, delete x4.y, typeof function(){}, typeof {});"),
        ["k(\"number\", typeof x2, undefined, -\"5\", 5, -2, !x3, true, \"function\", \"object\");"]
    );
    assert_eq!(
        folded("m('abc'.charCodeAt(1), 'abc'.length, 'é😀'.charCodeAt(2), 'a'.charCodeAt(9));"),
        ["m(98, \"abc\".length, 56832, NaN);"]
    );
    assert_eq!(
        folded("n(String(5), Number(true), Boolean(''), parseInt('7a'), Number(), Number('0x10'), Number(' 2.5 '), Number('x'));"),
        ["n(\"5\", 1, false, 7, Number(), 16, 2.5, NaN);"]
    );
    assert_eq!(folded("p(t(0x103), t(0x100 + 4));"), ["p(\"alpha\", \"beta\");"]);
    assert_eq!(folded("u(a['b'], a[c], a['d-e'], a.f);"), ["u(a.b, a[c], a[\"d-e\"], a.f);"]);
    assert_eq!(folded("v(1 << 33, -1 >>> 28, -8 >> 1, 6 & 3, 6 | 3, 6 ^ 3);"), ["v(2, 15, -4, 2, 7, 5);"]);
    assert_eq!(folded("w(c ? 1 : 2, 0 ? 1 : 2, a && b, 1 && b, '' || b, a ?? b);"), ["w(c ? 1 : 2, 2, a && b, b, b, a ?? b);"]);
}

#[test]
fn propagates_constants() {
    assert_eq!(folded("const s1 = 'lit';r(s1);"), ["const s1 = \"lit\";;", "r(\"lit\");"]);
    assert_eq!(folded("let s2 = 1;s2 = 2;r(s2);"), ["const s2 = 1;;", "s2 = 2;", "r(s2);"]);
    assert_eq!(folded("const a1 = document.body;r(a1.x);"), ["const a1 = document.body;;", "r(document.body.x);"]);
    assert_eq!(folded("const a2 = {};r(a2);"), ["const a2 = {};;", "r(a2);"]);
    assert_eq!(folded("r(function(z){return z;});"), ["r(function(z) {", "  return z;", "});"]);
    assert_eq!(
        folded("const q1 = true ? 1 : 2, q2 = a1 && b1, q3 = 0 || 'z';"),
        ["const q1 = 1;, const q2 = a1 && b1;, const q3 = \"z\";;"]
    );
}

#[test]
fn writes_statements() {
    assert_eq!(folded("if (0) { a(); } else { b(); }"), ["b();"]);
    assert_eq!(folded("if (0) { a(); }"), Vec::<String>::new());
    assert_eq!(folded("if (c) { d(); }"), ["if (c) {", "  d();", "}"]);
    assert_eq!(folded("if (c) d(); else { e(); }"), ["if (c) {", "  d();", "} else {", "  e();", "}"]);
    assert_eq!(
        folded("for (let n1 = 0; n1 < 3; n1++) { h(n1); }"),
        ["for (const n1 = 0;; true; n1 ++ 1;) {", "  h(n1);", "}"]
    );
    assert_eq!(folded("for (;;) { break; }"), ["for (;;) {", "  break;", "}"]);
    assert_eq!(folded("while (!![]) { break; }"), ["while (true) {", "  break;", "}"]);
    assert_eq!(
        folded("try { a(); } catch (e) { b(e); } finally { c(); }"),
        ["try {", "  a();", "} catch (e) {", "  b(e);", "} finally {", "  c();", "}"]
    );
    assert_eq!(folded("try { a(); } catch { }"), ["try {", "  a();", "} catch (_) {", "}"]);
    assert_eq!(folded("const o = {'a-b': 1, c: [1, 'x'], 3: null, [t(0x104)]: 2};"), ["const o = {\"a-b\": 1, c: [1, \"x\"], \"3\": null, beta: 2};;"]);
    assert_eq!(folded("throw new Error('x');"), ["throw new Error(\"x\");"]);
    assert_eq!(folded("const fn = (a) => a + 1;"), ["const fn = (a) => {", "  return a + 1;", "};;"]);
    assert_eq!(folded("class A extends B {}"), ["class A extends B {}"]);
    assert_eq!(folded("{ a(); }"), ["{", "  a();", "}"]);
    assert_eq!(folded("a.b = c;a['d'] += 1;e[f] ^= 2;g <<= 1;"), ["a.b = c;", "a.d += 1;", "e[f] ^= 2;", "g ?= 1;"]);
    assert_eq!(folded("a(), b();"), ["a(), b();"]);
    assert_eq!(folded("z('q\"\\\\\\n\\t\\u0001');"), ["z(\"q\\\"\\\\\\n\\t\\u0001\");"]);
}

#[test]
fn refuses_what_is_not_modelled() {
    assert_eq!(refused("[...a];"), "вне модели: spread/дыра в массиве");
    assert_eq!(refused("[1,,2];"), "вне модели: spread/дыра в массиве");
    assert_eq!(refused("f(...a);"), "вне модели: spread-аргумент");
    assert_eq!(refused("new F(...a);"), "вне модели: spread в new");
    assert_eq!(refused("x = {...a};"), "вне модели: spread в объекте");
    assert_eq!(refused("x = {[w]: 1};"), "вне модели: вычисляемый ключ объекта");
    assert_eq!(refused("const {z} = a;"), "вне модели: деструктуризация вне модели");
    assert_eq!(refused("for (const [z] = a;;) {}"), "вне модели: for-init деструктуризация");
    assert_eq!(refused("a.b++;"), "вне модели: цель ++ вне модели");
    assert_eq!(refused("[a] = b;"), "вне модели: цель присваивания вне модели");
    let at = |s: &str, what: &str| {
        let src = with_statements(s);
        let p = src.find(what).unwrap();
        (failure(&src), p)
    };
    let (e, p) = at("do { } while (x);", "do {");
    assert_eq!(e, format!("вне модели: statement @{p}"));
    let (e, p) = at("x = `tpl`;", "`tpl`");
    assert_eq!(e, format!("вне модели: выражение @{p}"));
    let deep = format!("x = {}y;", "!".repeat(80));
    assert_eq!(refused(&deep), "вне модели: превышена глубина выражения");
    let nested = format!("{}{}", "{".repeat(80), "}".repeat(80));
    assert_eq!(refused(&nested), "вне модели: превышена глубина вложенности");
}

#[test]
fn refuses_checksums_that_have_no_program() {
    let whole = challenge(SUM);
    let sum = "parseInt(q(0x100))/0x1";
    let with = |e: &str| failure(&whole.replace(sum, e));
    assert_eq!(with("parseInt(q(0x100))/parseInt()"), "вне модели: перевод checksum: перевод checksum: преобразование без аргумента");
    assert_eq!(with("parseInt(q(zz))/1"), "вне модели: перевод checksum: перевод checksum: нелитеральный аргумент декодера q");
    assert_eq!(with("zz(1)"), "вне модели: перевод checksum: перевод checksum: неизвестный вызов zz");
    assert_eq!(with("zz.y(1)"), "вне модели: перевод checksum: перевод checksum: выражение-калли");
    assert_eq!(with("!q(0x100)"), "вне модели: перевод checksum: перевод checksum: unary LogicalNot");
    assert_eq!(with("(q(0x100) < 1)"), "вне модели: перевод checksum: перевод checksum: binary LessThan");
}

#[test]
fn the_table_is_turned_string_by_string() {
    let m = model(&challenge(SUM), &[], &[]).map_err(|e| e.text()).unwrap();
    let mut table: Vec<String> = ["s18", "s19", "20x", "8y", "3z", "alpha", "beta"].iter().map(|s| s.to_string()).collect();
    table.extend((5..18).map(|k| format!("s{k}")));
    for _ in 0..m.rotation {
        let first = table.remove(0);
        table.push(first);
    }
    assert!(m.rotate_left);
    assert_eq!(m.strings, table);
    let fl = Floats { arith, parse, show, debug };
    assert_eq!(f64::from_bits(m.checksum.eval(&m.checksum_vars, &fl)), f64::from_bits(m.target));
    assert_eq!(f64::from_bits(m.checksum_raw.eval(&m.checksum_raw_vars, &fl)), f64::from_bits(m.target));
}

#[test]
fn a_session_solves_a_challenge_in_time() {
    let fl = Floats { arith, parse, show, debug };
    let mut s = Session {
        ua: "agent".into(),
        fe_version: "v".into(),
        bundle_url: "u".into(),
        facts: Facts::fixture(),
        signal_events: vec![],
        default_model: "m".into(),
        jsa: None,
        pending: None,
        signals_start: 0,
        pending_events: vec![],
        rng: 12345,
        journey: "j".into(),
        facts_reboots: 0,
    };
    let mut rng = 12345u64;
    let sent = duckkit::b64::encode_string(challenge(SUM).as_bytes());
    assert!(matches!(s.solve(sent.as_bytes(), 1, &fl, &copy, &no_code), Refresh::Solved));
    let duration = 8 + sample_u64(&mut rng, 250);
    assert!(duration < s.facts.timing.timeout_ms);
    assert_eq!(s.rng, rng);
    let made = token(&challenge(SUM), "agent", &s.facts, duration, &fl, &copy, &no_code).map_err(|e| e.text()).unwrap();
    assert_eq!(s.jsa_token(), Some(made.as_str()));
    let json = String::from_utf8(duckkit::b64::decode(made.as_bytes()).unwrap()).unwrap();
    assert!(json.ends_with(&format!("\"duration\":\"{duration}\"}}}}")));
}
