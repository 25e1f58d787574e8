use duckkit::cli::{batch_dir, facts_report, flag, head, json_escape, log_entry, path_argument, prompt, Command};
use duckkit::pipeline::bundle::analyze_bundle;
use duckkit::pipeline::html::{metrics, try_metrics};
use duckkit::pipeline::parse::{parse, report};

const SCRIPT: &str = r#"const SIG = new Set(["dc_a", "dc_b", "dc_c", "dc_d", "dc_e", "dc_f", "dc_g", "dc_impression"]);
function boot(d){return window.__DDG_BE_VERSION__ + window.__DDG_FE_CHAT_HASH__ + d.getAttribute("data-version-tag") + d.getAttribute("data-version-sha");}
/* é😀 */ async function solve(x){
  setTimeout(() => 1, 0);
  /* é😀 */ const r = await Promise.race([run(x, ")"), new Promise((a, b) => setTimeout(() => b("jsa_evaluation_timeout"), 500))]);
  return {stack: String(new Error()), duration: String(Date.now() - start)};
}"#;

fn column(at: usize) -> (u64, u64) {
    let before = &SCRIPT[..at];
    let line = before.matches('\n').count() as u64 + 1;
    let start = before.rfind('\n').map_or(0, |p| p + 1);
    (line, before[start..].encode_utf16().count() as u64 + 1)
}

#[test]
fn reads_the_script_of_the_page() {
    let e = analyze_bundle(SCRIPT).unwrap();
    assert!(e.fe_version_ok);
    assert_eq!(e.signal_events, vec!["a", "b", "c", "d", "e", "f", "g", "impression"]);
    assert_eq!(e.timing.timeout_ms, 500);
    assert_eq!(e.timing.duration_delta, 0);
    assert!(e.timing.macrotask_zero);
    let s = e.stack.as_ref().unwrap();
    assert_eq!(s.fname, "solve");
    let (line, col) = column(SCRIPT.find("new Error").unwrap());
    assert_eq!((s.line, s.col_error), (line, col));
    assert_eq!(s.col_race, column(SCRIPT.find("await Promise.race").unwrap()).1);
    assert_eq!((s.line, s.col_error, s.col_race), (6, 25, 23));
    assert_eq!(
        facts_report(&e),
        "timing.timeout_ms        = 500\ntiming.duration_delta    = 0\ntiming.macrotask_zero    = true\nfe_version_ok            = true\ndc_* events              = 8\nstack.fname              = solve\nstack.line               = 6\nstack.col_error          = 25\nstack.col_race           = 23\n"
    );
}

#[test]
fn a_script_may_say_less() {
    assert!(analyze_bundle("(((").is_none());
    let e = analyze_bundle("f(1)").unwrap();
    assert!(e.stack.is_none() && !e.fe_version_ok && e.signal_events.is_empty());
    assert_eq!((e.timing.timeout_ms, e.timing.macrotask_zero), (0, false));
    assert!(facts_report(&e).ends_with("stack                    = <не найден>\n"));
    let half = SCRIPT.replace("__DDG_BE_VERSION__", "other");
    assert!(!analyze_bundle(&half).unwrap().fe_version_ok);
    let few = SCRIPT.replace("\"dc_a\", ", "");
    assert!(analyze_bundle(&few).unwrap().signal_events.is_empty());
    let odd = SCRIPT.replace("\"dc_a\"", "\"xx_a\"");
    assert!(analyze_bundle(&odd).unwrap().signal_events.is_empty());
    let late = SCRIPT.replace("500", "5");
    assert_eq!(analyze_bundle(&late).unwrap().timing.timeout_ms, 0);
    let still = SCRIPT.replace("setTimeout(() => 1, 0);", "");
    assert!(!analyze_bundle(&still).unwrap().timing.macrotask_zero);
    let nameless = SCRIPT.replace("async function solve(x)", "const solve = async function(x)");
    let e = analyze_bundle(&nameless).unwrap();
    assert!(e.stack.is_none());
    assert_eq!(e.timing.timeout_ms, 0);
    let plus = SCRIPT.replace("Date.now() - start", "a - b");
    assert_eq!(analyze_bundle(&plus).unwrap().timing.duration_delta, 0);
}

#[test]
fn measures_fragments() {
    assert_eq!(metrics(""), (0, 0));
    assert_eq!(metrics("plain"), (5, 0));
    assert_eq!(metrics("<b>x</b>"), (8, 1));
    assert_eq!(metrics("<b>x"), (8, 1));
    assert_eq!(metrics("<br>"), (4, 1));
    assert_eq!(metrics("</br>"), (4, 1));
    assert_eq!(metrics("</p>"), (7, 1));
    assert_eq!(metrics("<p>a<div>b</div>"), ("<p>a</p><div>b</div>".len(), 2));
    assert_eq!(metrics("<ul><li>a<li>b</ul>"), ("<ul><li>a</li><li>b</li></ul>".len(), 3));
    assert_eq!(metrics("<div></span></div>"), ("<div></div>".len(), 1));
    assert_eq!(metrics("<!-- c --><?x?><>"), (0, 0));
    assert_eq!(metrics("a<b"), (1, 0));
    assert_eq!(metrics("<DIV id=x>é</div>"), (12, 1));
    assert_eq!(metrics("é"), (1, 0));
    assert_eq!(metrics("😀"), (2, 0));
    assert_eq!(metrics("<x😀>"), (2 * 3 + 5, 1));
    assert_eq!(metrics("<h1></h1>"), (9, 1));
    assert_eq!(metrics("<p>a<h1>b"), ("<p>a</p><h1>b</h1>".len(), 2));
    assert_eq!(metrics("<my-tag a=b></my-tag\t>"), ("<my-tag></my-tag>".len(), 1));
    assert_eq!(metrics("<br/>"), (4, 1));
    assert_eq!(metrics("<div/x>"), ("<div></div>".len(), 1));
    assert_eq!(metrics("<1></2>"), (0, 0));
    assert_eq!(try_metrics("<b>é"), Some((8, 1)));
}

#[test]
fn parses_scripts() {
    assert_eq!(parse("var a = 1; f(a);", 0).map(|v| v.len()), Ok(2));
    assert!(parse("var = ;", 0).is_err());
    let v: Vec<String> = vec!["a".into(), "b".into(), "c".into(), "d".into()];
    assert_eq!(report(&v), "a; b; c");
    assert_eq!(report(&v[..1].to_vec()), "a");
    assert_eq!(report(&Vec::new()), "");
}

#[test]
fn reads_the_command_line() {
    let args: Vec<String> = ["--proxy", "p", "hello", "--ua", "world", "--out"].iter().map(|s| s.to_string()).collect();
    assert_eq!(flag(&args, "--proxy"), Some("p".to_string()));
    assert_eq!(flag(&args, "--ua"), Some("world".to_string()));
    assert_eq!(flag(&args, "--out"), None);
    assert_eq!(flag(&args, "--dir"), None);
    assert_eq!(path_argument(Command::Solve, &args), Some("p".to_string()));
    assert_eq!(path_argument(Command::Solve, &args[2..5]), Some("hello".to_string()));
    assert_eq!(path_argument(Command::Solve, &args[3..5]), None);
    assert_eq!(path_argument(Command::Deob, &args[3..5]), Some("world".to_string()));
    assert_eq!(path_argument(Command::Deob, &words(&["--proxy", "f.js"])), Some("f.js".to_string()));
    assert_eq!(path_argument(Command::Facts, &words(&["--out", "f.js"])), Some("f.js".to_string()));
    assert_eq!(path_argument(Command::Live, &args[..2]), None);
    assert_eq!(path_argument(Command::Chat, &words(&["--out", "a", "b"])), Some("b".to_string()));
    assert_eq!(path_argument(Command::Deob, &args[..1]), None);
    assert_eq!(prompt(&args), "hello world");
    assert_eq!(prompt(&words(&["--out", "x", "hi"])), "x hi");
    assert_eq!(prompt(&words(&["--proxy", "http://p:1", "hi"])), "hi");
    assert_eq!(prompt(&words(&["hi", "--verbose", "there", "--model", "m"])), "hi there");
    assert_eq!(prompt(&[]), "");
}

fn words(v: &[&str]) -> Vec<String> {
    v.iter().map(|s| s.to_string()).collect()
}

#[test]
fn finds_the_directory_of_a_batch() {
    assert_eq!(batch_dir(&words(&["a", "--dir", "b"])), "a");
    assert_eq!(batch_dir(&words(&["--dir", "b"])), "b");
    assert_eq!(batch_dir(&words(&["--ua", "b"])), "b");
    assert_eq!(batch_dir(&words(&["--dir"])), "fixtures");
    assert_eq!(batch_dir(&[]), "fixtures");
}

#[test]
fn writes_the_log() {
    assert_eq!(json_escape("a\"\\\n\r\t\u{1}\u{1f}é"), "a\\\"\\\\\\n\\r\\t\\u0001\\u001fé");
    assert_eq!(log_entry(5, "user", "x\ny"), "{\"ts\":5,\"role\":\"user\",\"text\":\"x\\ny\"}\n");
    assert_eq!(head("short"), "short");
    assert_eq!(head(&"é".repeat(60)), "é".repeat(48));
}

#[test]
fn the_length_of_a_fragment_does_not_depend_on_depth() {
    assert_eq!(metrics("<b><i>x</i></b>"), (15, 2));
    assert_eq!(metrics("<b></b><i></i>x"), (15, 2));
    assert_eq!(metrics("<b><i>x"), (15, 2));
    assert_eq!(metrics(&"<b>".repeat(65)), (455, 65));
    assert_eq!(metrics(&"<b>".repeat(1000)), (7000, 1000));
    assert_eq!(metrics(&format!("{}x{}", "<i>".repeat(100), "</i>".repeat(100))), (701, 100));
    assert_eq!(metrics("plain text, no tag"), (18, 0));
    assert_eq!(metrics("<br>"), (4, 1));
    assert_eq!(metrics(""), (0, 0));
}

#[test]
fn the_case_of_a_fragment_does_not_matter() {
    for frag in ["<P>a<Div>b</DIV>", "<UL><Li>A<lI>B</Ul>", "</P></BR><BUTTON><P></BUTTON>É"] {
        assert_eq!(metrics(frag), metrics(&frag.to_ascii_lowercase()));
    }
}

#[test]
fn a_fragment_measures_no_more_than_it_can() {
    let frag = "</p>".repeat(10);
    let (len, count) = metrics(&frag);
    assert_eq!((len, count), (70, 10));
    assert!(len <= 5 * frag.chars().count() && count <= frag.chars().count());
}
