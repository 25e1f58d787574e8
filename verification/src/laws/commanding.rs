//! What the arguments of a command mean, and what a command writes.
use vstd::prelude::*;

#[allow(unused_imports)]
use crate::cli::{
    batch_dir_of, first_plain, flag_value, is_option, log_char, log_chars, log_text, plain,
    plain_arguments, report_text, spaced, takes_value, truth_text, Command,
};
#[allow(unused_imports)]
use crate::pipeline::bundle::{BundleEnv, StackFacts};
#[allow(unused_imports)]
use crate::text::{decimal, decimal_int};

verus! {

/// The arguments that are options: those that start with two dashes.
pub proof fn lemma_options(a: Seq<char>)
    ensures
        is_option(a) <==> a.len() >= 2 && a[0] == '-' && a[1] == '-',
{
    reveal_strlit("--");
    if a.len() >= 2 && a[0] == '-' && a[1] == '-' {
        assert(a.take(2) =~= "--"@);
    }
    if is_option(a) {
        assert(a.take(2)[0] == a[0] && a.take(2)[1] == a[1]);
    }
}

proof fn lemma_option_names()
    ensures
        "--ua"@.len() == 4 && "--ua"@[2] == 'u',
        "--dir"@.len() == 5 && "--dir"@[2] == 'd',
        "--out"@.len() == 5 && "--out"@[2] == 'o',
        "--proxy"@.len() == 7 && "--proxy"@[2] == 'p',
        "--model"@.len() == 7 && "--model"@[2] == 'm',
{
    reveal_strlit("--ua");
    reveal_strlit("--dir");
    reveal_strlit("--out");
    reveal_strlit("--proxy");
    reveal_strlit("--model");
}

/// The options that take the argument behind them, command by command.
pub proof fn lemma_option_values(a: Seq<char>)
    ensures
        takes_value(Command::Solve, a) <==> a == "--ua"@,
        takes_value(Command::Batch, a) <==> a == "--dir"@,
        takes_value(Command::Live, a) <==> a == "--proxy"@ || a == "--model"@,
        takes_value(Command::Chat, a) <==> a == "--out"@ || a == "--proxy"@ || a == "--model"@,
        !takes_value(Command::Deob, a),
        !takes_value(Command::Facts, a),
        takes_value(Command::Chat, "--out"@) && !takes_value(Command::Live, "--out"@),
        !takes_value(Command::Batch, "--ua"@) && !takes_value(Command::Solve, "--dir"@),
{
    lemma_option_names();
}

/// The value of an option is what follows its first occurrence.
pub proof fn lemma_option_value(args: Seq<Seq<char>>, name: Seq<char>, i: int)
    requires
        0 <= i <= args.len(),
    ensures
        flag_value(args, name, i) matches Some(v) ==> exists|k: int|
            i <= k < args.len() - 1 && (#[trigger] args[k]) == name && args[k + 1] == v
                && forall|j: int| i <= j < k ==> (#[trigger] args[j]) != name,
        flag_value(args, name, i) is None ==> forall|j: int|
            i <= j < args.len() - 1 ==> (#[trigger] args[j]) != name,
    decreases args.len() - i,
{
    if i < args.len() && args[i] != name {
        lemma_option_value(args, name, i + 1);
    }
}

/// An argument that is no option and is not taken by the one before it.
pub open spec fn free(cmd: Command, args: Seq<Seq<char>>, i: int) -> bool {
    !("--"@.is_prefix_of(args[i])) && (i == 0 || !takes_value(cmd, args[i - 1]))
}

/// The first argument is the first that is neither an option nor taken by one.
pub proof fn lemma_first_argument(cmd: Command, args: Seq<Seq<char>>, i: int)
    requires
        0 <= i <= args.len(),
    ensures
        first_plain(cmd, args, i) matches Some(v) ==> exists|k: int|
            i <= k < args.len() && v == args[k] && #[trigger] free(cmd, args, k) && forall|j: int|
                i <= j < k ==> !#[trigger] free(cmd, args, j),
        first_plain(cmd, args, i) is None ==> forall|j: int|
            i <= j < args.len() ==> !#[trigger] free(cmd, args, j),
    decreases args.len() - i,
{
    if i < args.len() {
        assert(plain(cmd, args, i) == free(cmd, args, i));
        if !plain(cmd, args, i) {
            lemma_first_argument(cmd, args, i + 1);
        } else {
            assert(free(cmd, args, i));
        }
    }
}

/// The directory of a batch: the first argument, or the value of `--dir`, or `fixtures`.
pub proof fn lemma_batch_dir(args: Seq<Seq<char>>)
    ensures
        first_plain(Command::Batch, args, 0) matches Some(d) ==> batch_dir_of(args) == d,
        first_plain(Command::Batch, args, 0) is None && flag_value(args, "--dir"@, 0) is Some
            ==> batch_dir_of(args) == flag_value(args, "--dir"@, 0)->0,
        first_plain(Command::Batch, args, 0) is None && flag_value(args, "--dir"@, 0) is None
            ==> batch_dir_of(args) == "fixtures"@,
{
}

/// The words of a message: every argument that is neither an option nor taken by one, in
/// their order.
pub proof fn lemma_words(cmd: Command, args: Seq<Seq<char>>, n: int)
    requires
        0 <= n < args.len(),
    ensures
        plain_arguments(cmd, args, 0) == Seq::<Seq<char>>::empty(),
        free(cmd, args, n) ==> plain_arguments(cmd, args, n + 1) == plain_arguments(
            cmd,
            args,
            n,
        ).push(args[n]),
        !free(cmd, args, n) ==> plain_arguments(cmd, args, n + 1) == plain_arguments(cmd, args, n),
{
    assert(plain(cmd, args, n) == free(cmd, args, n));
}

/// Words are joined by single spaces, with none before the first and behind the last.
pub proof fn lemma_spaced(v: Seq<Seq<char>>, x: Seq<char>)
    ensures
        spaced(seq![]) == Seq::<char>::empty(),
        spaced(seq![x]) == x,
        v.len() > 0 ==> spaced(v.push(x)) == spaced(v) + seq![' '] + x,
{
    reveal_strlit(" ");
    assert(" "@ =~= seq![' ']);
    assert(v.push(x).drop_last() =~= v);
}

/// What the log makes of a character: quotes, backslashes and the common controls get a
/// letter behind a backslash, other controls a code of four digits, and anything else
/// stays.
pub proof fn lemma_log_characters(c: char)
    ensures
        log_char('"') == seq!['\\', '"'],
        log_char('\\') == seq!['\\', '\\'],
        log_char('\n') == seq!['\\', 'n'],
        log_char('\r') == seq!['\\', 'r'],
        log_char('\t') == seq!['\\', 't'],
        c >= ' ' && c != '"' && c != '\\' ==> log_char(c) == seq![c],
{
    reveal_strlit("\\\"");
    reveal_strlit("\\\\");
    reveal_strlit("\\n");
    reveal_strlit("\\r");
    reveal_strlit("\\t");
    assert("\\\""@ =~= seq!['\\', '"']);
    assert("\\\\"@ =~= seq!['\\', '\\']);
    assert("\\n"@ =~= seq!['\\', 'n']);
    assert("\\r"@ =~= seq!['\\', 'r']);
    assert("\\t"@ =~= seq!['\\', 't']);
}

/// The log writes a text character by character, in its order.
pub proof fn lemma_log_order(s: Seq<char>, n: int)
    requires
        0 <= n < s.len(),
    ensures
        log_chars(s, 0) == Seq::<char>::empty(),
        log_chars(s, n + 1) == log_chars(s, n) + log_char(s[n]),
{
}

/// A line of the log holds the time, who speaks, and what is said.
pub proof fn lemma_log_line(ts: u64, role: Seq<char>, text: Seq<char>)
    ensures
        log_text(ts, role, text) == "{\"ts\":"@ + decimal(ts as nat) + ",\"role\":\""@ + role
            + "\",\"text\":\""@ + log_chars(text, text.len() as int) + "\"}\n"@,
{
}

/// What is printed of the facts of a script.
pub proof fn lemma_report(e: BundleEnv, s: StackFacts)
    ensures
        truth_text(true) == "true"@,
        truth_text(false) == "false"@,
        ({
            let common = "timing.timeout_ms        = "@ + decimal(e.timing.timeout_ms as nat)
                + "\ntiming.duration_delta    = "@ + decimal_int(e.timing.duration_delta as int)
                + "\ntiming.macrotask_zero    = "@ + truth_text(e.timing.macrotask_zero)
                + "\nfe_version_ok            = "@ + truth_text(e.fe_version_ok)
                + "\ndc_* events              = "@ + decimal(e.signal_events@.len()) + "\n"@;
            &&& e.stack is None ==> report_text(e) == common
                + "stack                    = <не найден>\n"@
            &&& e.stack == Some(s) ==> report_text(e) == common + (
            "stack.fname              = "@ + s.fname@ + "\nstack.line               = "@ + decimal(
                s.line as nat,
            ) + "\nstack.col_error          = "@ + decimal(s.col_error as nat)
                + "\nstack.col_race           = "@ + decimal(s.col_race as nat) + "\n"@)
        }),
{
}

} // verus!
