//! The command line: its arguments, and the texts that it prints.
use vstd::prelude::*;

use crate::pipeline::bundle::BundleEnv;
#[allow(unused_imports)]
use crate::pipeline::sx::texts;
#[allow(unused_imports)]
use crate::solver::{push_unit, unit_escape};
#[allow(unused_imports)]
use crate::text::{
    chars_of, dec_i64, dec_u64, dec_usize, decimal, decimal_int, group_concat, join2, own, str_eq,
    string_of,
};

verus! {

/// An argument that is an option.
pub open spec fn is_option(a: Seq<char>) -> bool {
    "--"@.is_prefix_of(a)
}

fn option_like(a: &str) -> (r: bool)
    ensures
        r == is_option(a@),
{
    let v = chars_of(a);
    proof {
        reveal_strlit("--");
        if v@.len() >= 2 && v@[0] == '-' && v@[1] == '-' {
            assert(v@.take(2) =~= "--"@);
        }
        if is_option(a@) {
            assert(v@.take(2)[0] == v@[0] && v@.take(2)[1] == v@[1]);
        }
    }
    v.len() >= 2 && v[0] == '-' && v[1] == '-'
}

/// A command of the program.
#[derive(Clone, Copy, PartialEq, Eq, Structural, Debug)]
pub enum Command {
    Deob,
    Solve,
    Batch,
    Facts,
    Live,
    Chat,
}

/// An option whose value a command reads: the argument behind it.
pub open spec fn takes_value(cmd: Command, a: Seq<char>) -> bool {
    match cmd {
        Command::Deob | Command::Facts => false,
        Command::Solve => a == "--ua"@,
        Command::Batch => a == "--dir"@,
        Command::Live => a == "--proxy"@ || a == "--model"@,
        Command::Chat => a == "--out"@ || a == "--proxy"@ || a == "--model"@,
    }
}

fn has_value(cmd: Command, a: &str) -> (r: bool)
    ensures
        r == takes_value(cmd, a@),
{
    match cmd {
        Command::Deob | Command::Facts => false,
        Command::Solve => str_eq(a, "--ua"),
        Command::Batch => str_eq(a, "--dir"),
        Command::Live => str_eq(a, "--proxy") || str_eq(a, "--model"),
        Command::Chat => str_eq(a, "--out") || str_eq(a, "--proxy") || str_eq(a, "--model"),
    }
}

/// The argument at place `i` is no option, and no option of the command has it as its
/// value.
pub open spec fn plain(cmd: Command, args: Seq<Seq<char>>, i: int) -> bool {
    !is_option(args[i]) && !(i > 0 && takes_value(cmd, args[i - 1]))
}

fn is_plain(cmd: Command, rest: &[String], i: usize) -> (r: bool)
    requires
        i < rest@.len(),
    ensures
        r == plain(cmd, texts(rest@), i as int),
{
    let ghost args = texts(rest@);
    assert(args[i as int] == rest@[i as int]@);
    if option_like(rest[i].as_str()) {
        return false;
    }
    if i == 0 {
        return true;
    }
    assert(args[i - 1] == rest@[i - 1]@);
    !has_value(cmd, rest[i - 1].as_str())
}

/// What follows the first argument that is `name`, from place `i` on.
pub open spec fn flag_value(args: Seq<Seq<char>>, name: Seq<char>, i: int) -> Option<Seq<char>>
    decreases args.len() - i,
{
    if i < 0 || i >= args.len() {
        None
    } else if args[i] == name {
        if i + 1 < args.len() {
            Some(args[i + 1])
        } else {
            None
        }
    } else {
        flag_value(args, name, i + 1)
    }
}

/// The value of an option: the argument behind it.
pub fn flag(rest: &[String], name: &str) -> (r: Option<String>)
    ensures
        match flag_value(texts(rest@), name@, 0) {
            Some(v) => r matches Some(s) && s@ == v,
            None => r is None,
        },
{
    let ghost args = texts(rest@);
    let mut i: usize = 0;
    while i < rest.len()
        invariant
            i <= rest@.len(),
            args == texts(rest@),
            flag_value(args, name@, 0) == flag_value(args, name@, i as int),
        decreases rest@.len() - i,
    {
        assert(args[i as int] == rest@[i as int]@);
        if str_eq(rest[i].as_str(), name) {
            if i + 1 < rest.len() {
                assert(args[i + 1] == rest@[i + 1]@);
                return Some(own(rest[i + 1].as_str()));
            }
            return None;
        }
        i += 1;
    }
    None
}

/// The first plain argument, from place `i` on.
pub open spec fn first_plain(cmd: Command, args: Seq<Seq<char>>, i: int) -> Option<Seq<char>>
    decreases args.len() - i,
{
    if i < 0 || i >= args.len() {
        None
    } else if plain(cmd, args, i) {
        Some(args[i])
    } else {
        first_plain(cmd, args, i + 1)
    }
}

/// The first argument that is neither an option nor the value of one.
pub fn path_argument(cmd: Command, rest: &[String]) -> (r: Option<String>)
    ensures
        match first_plain(cmd, texts(rest@), 0) {
            Some(v) => r matches Some(s) && s@ == v,
            None => r is None,
        },
{
    let ghost args = texts(rest@);
    let mut i: usize = 0;
    while i < rest.len()
        invariant
            i <= rest@.len(),
            args == texts(rest@),
            first_plain(cmd, args, 0) == first_plain(cmd, args, i as int),
        decreases rest@.len() - i,
    {
        assert(args[i as int] == rest@[i as int]@);
        if is_plain(cmd, rest, i) {
            return Some(own(rest[i].as_str()));
        }
        i += 1;
    }
    None
}

/// The directory of the scripts to be solved: the first plain argument, or else the
/// value of `--dir`, or else `fixtures`.
pub open spec fn batch_dir_of(args: Seq<Seq<char>>) -> Seq<char> {
    match (first_plain(Command::Batch, args, 0), flag_value(args, "--dir"@, 0)) {
        (Some(d), _) => d,
        (None, Some(d)) => d,
        (None, None) => "fixtures"@,
    }
}

/// The directory of the scripts to be solved.
pub fn batch_dir(rest: &[String]) -> (r: String)
    ensures
        r@ == batch_dir_of(texts(rest@)),
{
    match path_argument(Command::Batch, rest) {
        Some(d) => d,
        None => match flag(rest, "--dir") {
            Some(d) => d,
            None => own("fixtures"),
        },
    }
}

/// Those of the first `n` arguments that are plain.
pub open spec fn plain_arguments(cmd: Command, args: Seq<Seq<char>>, n: int) -> Seq<Seq<char>>
    decreases n,
{
    if n <= 0 || n > args.len() {
        seq![]
    } else if plain(cmd, args, n - 1) {
        plain_arguments(cmd, args, n - 1).push(args[n - 1])
    } else {
        plain_arguments(cmd, args, n - 1)
    }
}

/// Texts with a space between them.
pub open spec fn spaced(v: Seq<Seq<char>>) -> Seq<char>
    decreases v.len(),
{
    if v.len() == 0 {
        seq![]
    } else if v.len() == 1 {
        v[0]
    } else {
        spaced(v.drop_last()) + " "@ + v.last()
    }
}

/// The message that the arguments of `live` make: all that are neither options nor values of
/// options, with a space between them.
pub fn prompt(rest: &[String]) -> (r: String)
    ensures
        r@ == spaced(plain_arguments(Command::Live, texts(rest@), rest@.len() as int)),
{
    let ghost args = texts(rest@);
    let mut s = String::new();
    let mut first: bool = true;
    let mut i: usize = 0;
    assert(s@ =~= spaced(plain_arguments(Command::Live, args, 0)));
    while i < rest.len()
        invariant
            i <= rest@.len(),
            args == texts(rest@),
            first == (plain_arguments(Command::Live, args, i as int).len() == 0),
            s@ == spaced(plain_arguments(Command::Live, args, i as int)),
        decreases rest@.len() - i,
    {
        assert(args[i as int] == rest@[i as int]@);
        let ghost before = plain_arguments(Command::Live, args, i as int);
        if is_plain(Command::Live, rest, i) {
            let ghost t = s@;
            if !first {
                s.push_str(" ");
            }
            s.push_str(rest[i].as_str());
            proof {
                let after = plain_arguments(Command::Live, args, i + 1);
                assert(after == before.push(args[i as int]));
                assert(after.drop_last() =~= before);
                if first {
                    assert(before =~= seq![]);
                    assert(t =~= seq![]);
                    assert(s@ =~= args[i as int]);
                } else {
                    assert(s@ =~= spaced(before) + " "@ + args[i as int]);
                }
            }
            first = false;
        }
        i += 1;
    }
    s
}

// ------------------------------------------------------------------------------- the log

/// One character inside a string of the log.
pub open spec fn log_char(c: char) -> Seq<char> {
    if c == '"' {
        "\\\""@
    } else if c == '\\' {
        "\\\\"@
    } else if c == '\n' {
        "\\n"@
    } else if c == '\r' {
        "\\r"@
    } else if c == '\t' {
        "\\t"@
    } else if (c as u32) < 0x20 {
        unit_escape(c as u32 as int)
    } else {
        seq![c]
    }
}

/// The first `n` characters of a text inside a string of the log.
pub open spec fn log_chars(s: Seq<char>, n: int) -> Seq<char>
    decreases n,
{
    if n <= 0 || n > s.len() {
        seq![]
    } else {
        log_chars(s, n - 1) + log_char(s[n - 1])
    }
}

/// A text as it stands inside a string of the log.
pub fn json_escape(s: &str) -> (o: String)
    ensures
        o@ == log_chars(s@, s@.len() as int),
{
    let v = chars_of(s);
    let mut o = String::new();
    let mut i: usize = 0;
    assert(o@ =~= log_chars(s@, 0));
    while i < v.len()
        invariant
            v@ == s@,
            i <= v@.len(),
            o@ == log_chars(s@, i as int),
        decreases v@.len() - i,
    {
        let c: char = v[i];
        let ghost before = o@;
        if c == '"' {
            o.push_str("\\\"");
        } else if c == '\\' {
            o.push_str("\\\\");
        } else if c == '\n' {
            o.push_str("\\n");
        } else if c == '\r' {
            o.push_str("\\r");
        } else if c == '\t' {
            o.push_str("\\t");
        } else if (c as u32) < 0x20 {
            push_unit(c as u32, &mut o);
        } else {
            o.push(c);
        }
        assert(o@ =~= before + log_char(c));
        i += 1;
    }
    o
}

/// A line of the log.
pub open spec fn log_text(ts: u64, role: Seq<char>, text: Seq<char>) -> Seq<char> {
    "{\"ts\":"@ + decimal(ts as nat) + ",\"role\":\""@ + role + "\",\"text\":\""@ + log_chars(
        text,
        text.len() as int,
    ) + "\"}\n"@
}

/// Writes a line of the log.
pub fn log_entry(ts: u64, role: &str, text: &str) -> (r: String)
    ensures
        r@ == log_text(ts, role@, text@),
{
    broadcast use group_concat;

    let mut s = join2("{\"ts\":", dec_u64(ts).as_str());
    s.push_str(",\"role\":\"");
    s.push_str(role);
    s.push_str("\",\"text\":\"");
    s.push_str(json_escape(text).as_str());
    s.push_str("\"}\n");
    s
}

// ------------------------------------------------------------------------------- reports

/// How a truth value is written.
pub open spec fn truth_text(b: bool) -> Seq<char> {
    if b { "true"@ } else { "false"@ }
}

/// What is printed of the facts of a script.
pub open spec fn report_text(e: BundleEnv) -> Seq<char> {
    "timing.timeout_ms        = "@ + decimal(e.timing.timeout_ms as nat)
        + "\ntiming.duration_delta    = "@ + decimal_int(e.timing.duration_delta as int)
        + "\ntiming.macrotask_zero    = "@ + truth_text(e.timing.macrotask_zero)
        + "\nfe_version_ok            = "@ + truth_text(e.fe_version_ok)
        + "\ndc_* events              = "@ + decimal(e.signal_events@.len()) + "\n"@ + (
    match e.stack {
        Some(s) => "stack.fname              = "@ + s.fname@ + "\nstack.line               = "@
            + decimal(s.line as nat) + "\nstack.col_error          = "@ + decimal(
            s.col_error as nat,
        ) + "\nstack.col_race           = "@ + decimal(s.col_race as nat) + "\n"@,
        None => "stack                    = <не найден>\n"@,
    })
}

fn truth_str(b: bool) -> (r: &'static str)
    ensures
        r@ == truth_text(b),
{
    if b { "true" } else { "false" }
}

/// Writes what is printed of the facts of a script.
pub fn facts_report(e: &BundleEnv) -> (r: String)
    ensures
        r@ == report_text(*e),
{
    broadcast use group_concat;

    let mut s = join2("timing.timeout_ms        = ", dec_u64(e.timing.timeout_ms).as_str());
    s.push_str("\ntiming.duration_delta    = ");
    s.push_str(dec_i64(e.timing.duration_delta).as_str());
    s.push_str("\ntiming.macrotask_zero    = ");
    s.push_str(truth_str(e.timing.macrotask_zero));
    s.push_str("\nfe_version_ok            = ");
    s.push_str(truth_str(e.fe_version_ok));
    s.push_str("\ndc_* events              = ");
    s.push_str(dec_usize(e.signal_events.len()).as_str());
    s.push_str("\n");
    match &e.stack {
        Some(st) => {
            s.push_str("stack.fname              = ");
            s.push_str(st.fname.as_str());
            s.push_str("\nstack.line               = ");
            s.push_str(dec_u64(st.line).as_str());
            s.push_str("\nstack.col_error          = ");
            s.push_str(dec_u64(st.col_error).as_str());
            s.push_str("\nstack.col_race           = ");
            s.push_str(dec_u64(st.col_race).as_str());
            s.push_str("\n");
        },
        None => s.push_str("stack                    = <не найден>\n"),
    }
    s
}

/// The first forty-eight characters of a token, or all of a shorter one.
pub fn head(token: &str) -> (r: String)
    ensures
        r@ == (if token@.len() > 48 { token@.take(48) } else { token@ }),
{
    let v = chars_of(token);
    let n: usize = if v.len() > 48 { 48 } else { v.len() };
    proof {
        assert(v@.subrange(0, n as int) =~= v@.take(n as int));
        assert(v@.take(v@.len() as int) =~= v@);
    }
    string_of(v.as_slice(), 0, n)
}

} // verus!
