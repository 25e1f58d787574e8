//! How a folded script is written out again.
use vstd::prelude::*;

#[allow(unused_imports)]
use crate::floats::FloatsV;
#[allow(unused_imports)]
use crate::laws::probing::{apply, binary, dot};
#[allow(unused_imports)]
use crate::pipeline::deob::{debug_items, debug_list};
#[allow(unused_imports)]
use crate::pipeline::flow::Model;
#[allow(unused_imports)]
use crate::pipeline::parse::{joined, reported};
#[allow(unused_imports)]
use crate::pipeline::probes::{Probe, Read};
#[allow(unused_imports)]
use crate::pipeline::render::{
    comma_joined, is_name, key_text, name_char, pad, quoted, quoted_char, quoted_chars,
};
#[allow(unused_imports)]
use crate::pipeline::sx::{models, texts, SxV};
#[allow(unused_imports)]
use crate::text::{debug_text, decimal, digits, zero_padded};

verus! {

/// A name starts with a letter, a line or a dollar sign, and goes on with these and with
/// digits.
pub proof fn lemma_names(s: Seq<char>)
    ensures
        is_name(s) <==> s.len() > 0 && !('0' <= s[0] <= '9') && forall|i: int|
            0 <= i < s.len() ==> 'a' <= #[trigger] s[i] <= 'z' || 'A' <= s[i] <= 'Z' || '0' <= s[i]
                <= '9' || s[i] == '_' || s[i] == '$',
{
    if is_name(s) {
        assert(name_char(s[0], true));
        assert forall|i: int| 0 <= i < s.len() implies 'a' <= #[trigger] s[i] <= 'z' || 'A' <= s[i]
            <= 'Z' || '0' <= s[i] <= '9' || s[i] == '_' || s[i] == '$' by {
            assert(name_char(s[i], false));
        }
    }
}

/// The characters of a string literal: quotes, backslashes and the common controls get a
/// letter behind a backslash, other controls a code of four digits, anything else stays.
pub proof fn lemma_quoted(s: Seq<char>, c: char)
    ensures
        quoted(s) == seq!['"'] + quoted_chars(s) + seq!['"'],
        quoted_chars(seq![]) == Seq::<char>::empty(),
        quoted_chars(s.push(c)) == quoted_chars(s) + quoted_char(c),
        quoted_char('"') == seq!['\\', '"'],
        quoted_char('\\') == seq!['\\', '\\'],
        quoted_char('\n') == seq!['\\', 'n'],
        quoted_char('\r') == seq!['\\', 'r'],
        quoted_char('\t') == seq!['\\', 't'],
        c >= ' ' && c != '"' && c != '\\' ==> quoted_char(c) == seq![c],
        c < ' ' && c != '\n' && c != '\r' && c != '\t' ==> quoted_char(c) == seq!['\\', 'u']
            + zero_padded(digits(c as u32 as nat, 16), 4),
{
    assert(s.push(c).drop_last() =~= s);
    reveal_strlit("\\\"");
    reveal_strlit("\\\\");
    reveal_strlit("\\n");
    reveal_strlit("\\r");
    reveal_strlit("\\t");
    reveal_strlit("\\u");
    assert("\\\""@ =~= seq!['\\', '"']);
    assert("\\\\"@ =~= seq!['\\', '\\']);
    assert("\\n"@ =~= seq!['\\', 'n']);
    assert("\\r"@ =~= seq!['\\', 'r']);
    assert("\\t"@ =~= seq!['\\', 't']);
    assert("\\u"@ =~= seq!['\\', 'u']);
}

/// The forms of the leaves.
pub proof fn lemma_leaf_text(fl: FloatsV, n: u64, s: Seq<char>, ind: usize)
    ensures
        fl.code(SxV::Num(n), ind) == fl.num_text(n),
        fl.code(SxV::Str(s), ind) == quoted(s),
        fl.code(SxV::Bool(true), ind) == "true"@,
        fl.code(SxV::Bool(false), ind) == "false"@,
        fl.code(SxV::Null, ind) == "null"@,
        fl.code(SxV::Undef, ind) == "undefined"@,
        fl.code(SxV::Ref(s), ind) == s,
        fl.code(SxV::Break, ind) == "break;"@,
        fl.code(SxV::Continue, ind) == "continue;"@,
        fl.code(SxV::Empty, ind) == Seq::<char>::empty(),
        fl.code(SxV::Ret(None), ind) == "return;"@,
{
}

/// Operators stand between their operands, and those that are words before a space; a
/// property stands behind a dot where it is a name, and in brackets where it is not.
pub proof fn lemma_operator_text(fl: FloatsV, a: SxV, b: SxV, c: SxV, op: Seq<char>, ind: usize)
    ensures
        fl.code(binary(op, a, b), ind) == fl.code(a, ind) + seq![' '] + op + seq![' '] + fl.code(
            b,
            ind,
        ),
        fl.code(SxV::Log { op, l: Box::new(a), r: Box::new(b) }, ind) == fl.code(a, ind)
            + seq![' '] + op + seq![' '] + fl.code(b, ind),
        fl.code(SxV::Un { op: "typeof"@, a: Box::new(a) }, ind) == "typeof"@ + seq![' '] + fl.code(
            a,
            ind,
        ),
        op != "typeof"@ && op != "delete"@ && op != "void"@ ==> fl.code(
            SxV::Un { op, a: Box::new(a) },
            ind,
        ) == op + fl.code(a, ind),
        fl.code(SxV::Cond { t: Box::new(a), c: Box::new(b), a: Box::new(c) }, ind) == fl.code(a, ind)
            + " ? "@ + fl.code(b, ind) + " : "@ + fl.code(c, ind),
        is_name(op) ==> fl.code(dot(a, op), ind) == fl.code(a, ind) + (seq!['.'] + op),
        !is_name(op) ==> fl.code(dot(a, op), ind) == fl.code(a, ind) + (seq!['['] + quoted(op)
            + seq![']']),
        fl.code(SxV::Index { obj: Box::new(a), idx: Box::new(b) }, ind) == fl.code(a, ind)
            + seq!['['] + fl.code(b, ind) + seq![']'],
{
    if op != "typeof"@ && op != "delete"@ && op != "void"@ {
        assert(op + Seq::<char>::empty() + fl.code(a, ind) =~= op + fl.code(a, ind));
    }
}

/// Calls, arrays and objects hold their parts in their order, with commas between them.
pub proof fn lemma_list_text(
    fl: FloatsV,
    f: SxV,
    v: Seq<SxV>,
    o: Seq<(Seq<char>, SxV)>,
    n: int,
    k: int,
    ind: usize,
)
    requires
        0 < n < v.len(),
        0 < k < o.len(),
    ensures
        fl.code(apply(f, v), ind) == fl.code(f, ind) + seq!['('] + fl.list_code(
            v,
            v.len() as int,
            ind,
        ) + seq![')'],
        fl.code(SxV::New { callee: Box::new(f), args: v }, ind) == "new "@ + fl.code(f, ind)
            + seq!['('] + fl.list_code(v, v.len() as int, ind) + seq![')'],
        fl.code(SxV::Arr(v), ind) == seq!['['] + fl.list_code(v, v.len() as int, ind) + seq![']'],
        fl.code(SxV::Obj(o), ind) == seq!['{'] + fl.field_code(o, o.len() as int, ind) + seq!['}'],
        fl.list_code(v, 0, ind) == Seq::<char>::empty(),
        fl.list_code(v, 1, ind) == fl.code(v[0], ind),
        fl.list_code(v, n + 1, ind) == fl.list_code(v, n, ind) + ", "@ + fl.code(v[n], ind),
        fl.field_code(o, 0, ind) == Seq::<char>::empty(),
        fl.field_code(o, k + 1, ind) == fl.field_code(o, k, ind) + ", "@ + key_text(o[k].0) + ": "@
            + fl.code(o[k].1, ind),
        is_name(o[k].0) ==> key_text(o[k].0) == o[k].0,
        !is_name(o[k].0) ==> key_text(o[k].0) == quoted(o[k].0),
{
    assert(fl.list_code(v, 0, ind) == Seq::<char>::empty());
    assert(Seq::<char>::empty() + Seq::<char>::empty() + fl.code(v[0], ind) =~= fl.code(v[0], ind));
}

/// Statements: a declaration, an assignment, a `return` and a `throw` end in a semicolon;
/// the bodies of the others stand two spaces deeper, and their last bracket does not.
pub proof fn lemma_statement_text(
    fl: FloatsV,
    a: SxV,
    b: SxV,
    v: Seq<SxV>,
    w: Seq<SxV>,
    s: Seq<char>,
    ind: usize,
)
    requires
        ind < usize::MAX,
        w.len() > 0,
    ensures
        ({
            let in_v = fl.lines(v, v.len() as int, (ind + 1) as usize);
            let in_w = fl.lines(w, w.len() as int, (ind + 1) as usize);
            &&& fl.code(SxV::Var { name: s, value: Box::new(a) }, ind) == "const "@ + s + " = "@
                + fl.code(a, ind) + seq![';']
            &&& fl.code(
                SxV::Assign { target: Box::new(a), op: s, value: Box::new(b) },
                ind,
            ) == fl.code(a, ind) + seq![' '] + s + seq![' '] + fl.code(b, ind) + seq![';']
            &&& fl.code(SxV::Ret(Some(Box::new(a))), ind) == "return "@ + fl.code(a, ind) + seq![';']
            &&& fl.code(SxV::Throw(Box::new(a)), ind) == "throw "@ + fl.code(a, ind) + seq![';']
            &&& fl.code(SxV::Block(v), ind) == "{\n"@ + in_v + pad(ind) + seq!['}']
            &&& fl.code(SxV::If { t: Box::new(a), c: v, a: w }, ind) == "if ("@ + fl.code(a, ind)
                + ") {\n"@ + in_v + (pad(ind) + "} else {\n"@ + in_w) + pad(ind) + seq!['}']
            &&& fl.code(SxV::If { t: Box::new(a), c: v, a: seq![] }, ind) == "if ("@ + fl.code(
                a,
                ind,
            ) + ") {\n"@ + in_v + pad(ind) + seq!['}']
            &&& fl.code(SxV::While { t: Box::new(a), body: v }, ind) == "while ("@ + fl.code(a, ind)
                + ") {\n"@ + in_v + pad(ind) + seq!['}']
        }),
{
    let in_v = fl.lines(v, v.len() as int, (ind + 1) as usize);
    let head = "if ("@ + fl.code(a, ind) + ") {\n"@ + in_v;
    assert(head + Seq::<char>::empty() + pad(ind) + seq!['}'] =~= head + pad(ind) + seq!['}']);
}

/// A line starts with two spaces for each level and ends with a line end, behind a
/// semicolon where the statement does not end itself; lines stand in their order.
pub proof fn lemma_lines(fl: FloatsV, v: Seq<SxV>, n: int, ind: usize)
    requires
        0 <= n < v.len(),
    ensures
        fl.lines(v, 0, ind) == Seq::<char>::empty(),
        fl.lines(v, n + 1, ind) == fl.lines(v, n, ind) + fl.line(v[n], ind),
        v[n] is Call || v[n] is Ref || v[n] is Bin ==> fl.line(v[n], ind) == pad(ind) + fl.code(
            v[n],
            ind,
        ) + seq![';'] + seq!['\n'],
        v[n] is Var || v[n] is If || v[n] is Ret || v[n] is Assign || v[n] is While || v[n] is Try
            || v[n] is For || v[n] is Block ==> fl.line(v[n], ind) == pad(ind) + fl.code(v[n], ind)
            + seq!['\n'],
        v[n] is Empty ==> fl.line(v[n], ind) == Seq::<char>::empty(),
        pad(ind).len() == 2 * ind,
        forall|i: int| 0 <= i < pad(ind).len() ==> #[trigger] pad(ind)[i] == ' ',
{
    let c = pad(ind) + fl.code(v[n], ind);
    assert(c + Seq::<char>::empty() + seq!['\n'] =~= c + seq!['\n']);
}

/// Functions: their parameters with commas between them, and their bodies a level deeper.
pub proof fn lemma_function_text(fl: FloatsV, p: Seq<Seq<char>>, v: Seq<SxV>, ind: usize, n: int)
    requires
        ind < usize::MAX,
        0 < n < p.len(),
    ensures
        ({
            let body = fl.lines(v, v.len() as int, (ind + 1) as usize) ;
            &&& fl.code(SxV::Fn { params: p, body: v, arrow: false }, ind) == "function("@
                + comma_joined(p, p.len() as int) + ") {\n"@ + body + pad(ind) + seq!['}']
            &&& fl.code(SxV::Fn { params: p, body: v, arrow: true }, ind) == seq!['(']
                + comma_joined(p, p.len() as int) + ") => {\n"@ + body + pad(ind) + seq!['}']
        }),
        comma_joined(p, 1) == p[0],
        comma_joined(p, n + 1) == comma_joined(p, n) + ", "@ + p[n],
{
}

/// A list of strings stands in brackets, with commas between them.
pub proof fn lemma_debug_list(v: Seq<Seq<char>>, n: int)
    requires
        0 < n < v.len(),
    ensures
        debug_list(v) == "["@ + debug_items(v, v.len() as int) + "]"@,
        debug_items(v, 0) == Seq::<char>::empty(),
        debug_items(v, 1) == debug_text(v[0]),
        debug_items(v, n + 1) == debug_items(v, n) + ", "@ + debug_text(v[n]),
{
    assert(debug_items(v, 0) == Seq::<char>::empty());
    assert(Seq::<char>::empty() + Seq::<char>::empty() + debug_text(v[0]) =~= debug_text(v[0]));
}

/// The probes are listed in their order, counted from zero, each with what it reads below
/// it.
pub proof fn lemma_probe_lines(fl: FloatsV, v: Seq<Probe>, n: int, r: Seq<Read>, k: int)
    requires
        0 <= n < v.len(),
        0 <= k < r.len(),
    ensures
        fl.probe_lines(v, 0) == Seq::<char>::empty(),
        fl.probe_lines(v, n + 1) == fl.probe_lines(v, n) + ("// probe["@ + decimal(n as nat)
            + "] base="@ + fl.debug_number(v[n].base) + " value="@ + fl.debug_number(v[n].value)
            + "\n"@ + fl.read_lines(v[n].reads@, v[n].reads@.len() as int)),
        fl.read_lines(r, 0) == Seq::<char>::empty(),
        r[k] is NavUa ==> fl.read_lines(r, k + 1) == fl.read_lines(r, k)
            + "//   navigator.userAgent -> <символ UA>\n"@,
        r[k] is Env ==> fl.read_lines(r, k + 1) == fl.read_lines(r, k) + ("//   "@ + r[k]->desc@
            + "\n"@),
        fl.debug_number(None) == "None"@,
{
}

/// Of what the parser reports the first three are told, with semicolons between them.
pub proof fn lemma_reported(v: Seq<Seq<char>>, n: int)
    requires
        0 < n < v.len(),
    ensures
        joined(v, 1) == v[0],
        joined(v, n + 1) == joined(v, n) + "; "@ + v[n],
        v.len() >= 3 ==> reported(v) == v[0] + "; "@ + v[1] + "; "@ + v[2],
        v.len() == 2 ==> reported(v) == v[0] + "; "@ + v[1],
        reported(seq![v[0]]) == v[0],
{
    reveal_with_fuel(joined, 4);
    assert(seq![v[0]].len() == 1);
}

/// What is said of a challenge before its code.
pub proof fn lemma_heading(fl: FloatsV, m: Model)
    ensures
        fl.heading(m) == "// duckkit 13 — деобфускация (oxc → const-prop → slice → egg)\n"@
            + "// family="@ + m.egg.family@ + " template="@ + zero_padded(
            digits(m.egg.template_hash as nat, 16),
            16,
        ) + " ops="@ + decimal(m.egg.canonical_ops as nat) + "/"@ + decimal(m.egg.raw_ops as nat)
            + " rotation="@ + decimal(m.rotation as nat) + (if m.rotate_left {
            " (left)"@
        } else {
            " (right)"@
        }) + " target="@ + (fl.shown)(m.target) + "\n"@ + "// canonical: "@
            + m.egg.canonical_sexpr@ + "\n\n"@,
{
}

/// The constants of a challenge, each under its name, and what stands around its code.
pub proof fn lemma_listing(fl: FloatsV, m: Model)
    ensures
        fl.constants(m) == "const STRINGS = "@ + debug_list(texts(m.strings@)) + ";\n"@
            + "const key = "@ + debug_text(m.key@) + ";\n"@ + "const challenge_id = "@ + debug_text(
            m.challenge_id@,
        ) + ";\n"@ + "const timestamp = "@ + debug_text(m.timestamp@) + ";\n"@
            + "const server_hashes = "@ + debug_list(texts(m.server_hashes@)) + ";\n\n"@,
        fl.listing(m) == fl.heading(m) + fl.constants(m)
            + "// чтения проб (что именно дёргает каждая проба Promise.all):\n"@ + fl.probe_lines(
            m.probes@,
            m.probes@.len() as int,
        ) + "\n"@
            + "// полное деобфусцированное тело (строки подставлены, константы свёрнуты):\n"@
            + fl.lines(models(m.body@), m.body@.len() as int, 0),
{
}

} // verus!
