//! Folded code as text.
use vstd::prelude::*;

use crate::floats::{FloatOps, FloatsV};
use crate::jsnum::format_js_num;
use crate::pipeline::sx::{field_models, models, texts, Sx, SxV};
use crate::text::{chars_of, group_concat, digits, hex_padded, str_eq, zero_padded};

verus! {

/// A character of a name, at its start or behind it.
pub open spec fn name_char(c: char, first: bool) -> bool {
    ||| 'a' <= c <= 'z' || 'A' <= c <= 'Z' || c == '_' || c == '$'
    ||| !first && '0' <= c <= '9'
}

/// A text that can stand behind a dot.
pub open spec fn is_name(s: Seq<char>) -> bool {
    &&& s.len() > 0
    &&& name_char(s[0], true)
    &&& forall|i: int| 0 <= i < s.len() ==> name_char(#[trigger] s[i], false)
}

fn name_part(c: char, first: bool) -> (r: bool)
    ensures
        r == name_char(c, first),
{
    ('a' <= c && c <= 'z') || ('A' <= c && c <= 'Z') || c == '_' || c == '$' || (!first && '0' <= c
        && c <= '9')
}

/// Whether a text can stand behind a dot.
pub fn ident_ok(s: &str) -> (r: bool)
    ensures
        r == is_name(s@),
{
    let v = chars_of(s);
    if v.len() == 0 || !name_part(v[0], true) {
        return false;
    }
    let mut i: usize = 0;
    while i < v.len()
        invariant
            v@ == s@,
            i <= v@.len(),
            forall|j: int| 0 <= j < i ==> name_char(#[trigger] v@[j], false),
        decreases v@.len() - i,
    {
        if !name_part(v[i], false) {
            return false;
        }
        i += 1;
    }
    true
}

/// A character inside a string literal.
pub open spec fn quoted_char(c: char) -> Seq<char> {
    if c == '"' {
        "\\\""@
    } else if c == '\\' {
        "\\\\"@
    } else if c == '\n' {
        "\\n"@
    } else if c == '\r' {
        "\\r"@
    } else if c == '\t' {
        "\\t"@
    } else if (c as u32) < 0x20 {
        "\\u"@ + zero_padded(digits(c as u32 as nat, 16), 4)
    } else {
        seq![c]
    }
}

/// The characters of a string literal, without its quotes.
pub open spec fn quoted_chars(s: Seq<char>) -> Seq<char>
    decreases s.len(),
{
    if s.len() == 0 {
        seq![]
    } else {
        quoted_chars(s.drop_last()) + quoted_char(s.last())
    }
}

/// A text as a string literal.
pub open spec fn quoted(s: Seq<char>) -> Seq<char> {
    seq!['"'] + quoted_chars(s) + seq!['"']
}

/// Writes a text as a string literal.
pub fn js_quote(s: &str) -> (r: String)
    ensures
        r@ == quoted(s@),
{
    let v = chars_of(s);
    let mut out = String::new();
    out.push('"');
    let mut i: usize = 0;
    assert(out@ =~= seq!['"'] + quoted_chars(v@.take(0)));
    while i < v.len()
        invariant
            i <= v@.len(),
            out@ == seq!['"'] + quoted_chars(v@.take(i as int)),
        decreases v@.len() - i,
    {
        let c: char = v[i];
        let ghost before = out@;
        if c == '"' {
            out.push_str("\\\"");
        } else if c == '\\' {
            out.push_str("\\\\");
        } else if c == '\n' {
            out.push_str("\\n");
        } else if c == '\r' {
            out.push_str("\\r");
        } else if c == '\t' {
            out.push_str("\\t");
        } else if (c as u32) < 0x20 {
            out.push_str("\\u");
            out.push_str(hex_padded(c as u32 as u64, 4).as_str());
        } else {
            out.push(c);
        }
        i += 1;
        proof {
            assert(v@.take(i as int).drop_last() =~= v@.take(i - 1));
            assert(out@ =~= before + quoted_char(c));
            assert(out@ =~= seq!['"'] + quoted_chars(v@.take(i as int)));
        }
    }
    assert(v@.take(i as int) =~= s@);
    out.push('"');
    assert(out@ =~= quoted(s@));
    out
}

/// The indentation of a line.
pub open spec fn pad(ind: usize) -> Seq<char> {
    Seq::new(2 * ind as nat, |i: int| ' ')
}

/// One level deeper; no level is deeper than the greatest `usize`.
pub open spec fn deeper(ind: usize) -> usize {
    if ind < usize::MAX { (ind + 1) as usize } else { ind }
}

fn indent(ind: usize, out: &mut String)
    ensures
        final(out)@ == old(out)@ + pad(ind),
{
    let ghost start = out@;
    let mut i: usize = 0;
    assert(out@ =~= start + pad(0));
    while i < ind
        invariant
            i <= ind,
            out@ == start + pad(i),
        decreases ind - i,
    {
        out.push(' ');
        out.push(' ');
        i += 1;
        assert(out@ =~= start + pad(i));
    }
}

fn down(ind: usize) -> (r: usize)
    ensures
        r == deeper(ind),
{
    if ind < usize::MAX { ind + 1 } else { ind }
}

/// Texts with `", "` between them.
pub open spec fn comma_joined(v: Seq<Seq<char>>, n: int) -> Seq<char>
    decreases n,
{
    if n <= 0 || n > v.len() {
        seq![]
    } else if n == 1 {
        v[0]
    } else {
        comma_joined(v, n - 1) + ", "@ + v[n - 1]
    }
}

fn join_commas(v: &Vec<String>, out: &mut String)
    ensures
        final(out)@ == old(out)@ + comma_joined(texts(v@), v@.len() as int),
{
    let ghost start = out@;
    let ghost m = texts(v@);
    let mut i: usize = 0;
    assert(out@ =~= start + comma_joined(m, 0));
    while i < v.len()
        invariant
            i <= v@.len(),
            m == texts(v@),
            out@ == start + comma_joined(m, i as int),
        decreases v@.len() - i,
    {
        if i > 0 {
            out.push_str(", ");
        }
        out.push_str(v[i].as_str());
        i += 1;
        assert(out@ =~= start + comma_joined(m, i as int));
    }
}

/// A property name as it is written behind its object or in a literal.
pub open spec fn key_text(k: Seq<char>) -> Seq<char> {
    if is_name(k) { k } else { quoted(k) }
}

/// The statement forms that end their own line.
pub open spec fn closes_itself(sx: SxV) -> bool {
    match sx {
        SxV::If { .. } | SxV::For { .. } | SxV::While { .. } | SxV::Try { .. } | SxV::Block(_)
        | SxV::Var { .. } | SxV::Assign { .. } | SxV::Ret(_) | SxV::Throw(_) | SxV::Break
        | SxV::Continue | SxV::Fn { .. } | SxV::Class { .. } => true,
        _ => false,
    }
}

impl FloatsV {
    /// The text of a tree that stands on a line with indentation `ind`.
    pub open spec fn code(&self, sx: SxV, ind: usize) -> Seq<char>
        decreases sx, 0int,
    {
        match sx {
            SxV::Num(n) => self.num_text(n),
            SxV::Str(s) => quoted(s),
            SxV::Bool(b) => if b { "true"@ } else { "false"@ },
            SxV::Null => "null"@,
            SxV::Undef => "undefined"@,
            SxV::Ref(n) => n,
            SxV::Member { obj, prop } => self.code(*obj, ind) + if is_name(prop) {
                seq!['.'] + prop
            } else {
                seq!['['] + quoted(prop) + seq![']']
            },
            SxV::Index { obj, idx } => self.code(*obj, ind) + seq!['['] + self.code(*idx, ind)
                + seq![']'],
            SxV::Call { callee, args } => self.code(*callee, ind) + seq!['('] + self.list_code(
                args,
                args.len() as int,
                ind,
            ) + seq![')'],
            SxV::New { callee, args } => "new "@ + self.code(*callee, ind) + seq!['(']
                + self.list_code(args, args.len() as int, ind) + seq![')'],
            SxV::Bin { op, l, r } => self.code(*l, ind) + seq![' '] + op + seq![' '] + self.code(
                *r,
                ind,
            ),
            SxV::Log { op, l, r } => self.code(*l, ind) + seq![' '] + op + seq![' '] + self.code(
                *r,
                ind,
            ),
            SxV::Un { op, a } => op + (if op == "typeof"@ || op == "delete"@ || op == "void"@ {
                seq![' ']
            } else {
                seq![]
            }) + self.code(*a, ind),
            SxV::Cond { t, c, a } => self.code(*t, ind) + " ? "@ + self.code(*c, ind) + " : "@
                + self.code(*a, ind),
            SxV::Arr(v) => seq!['['] + self.list_code(v, v.len() as int, ind) + seq![']'],
            SxV::Obj(v) => seq!['{'] + self.field_code(v, v.len() as int, ind) + seq!['}'],
            SxV::Fn { params, body, arrow } => (if arrow {
                seq!['('] + comma_joined(params, params.len() as int) + ") => {\n"@
            } else {
                "function("@ + comma_joined(params, params.len() as int) + ") {\n"@
            }) + self.lines(body, body.len() as int, deeper(ind)) + pad(ind) + seq!['}'],
            SxV::Class { name, super_ } => "class "@ + name + (match super_ {
                Some(s) => " extends "@ + self.code(*s, ind),
                None => seq![],
            }) + " {}"@,
            SxV::Sequence(v) => self.list_code(v, v.len() as int, ind),
            SxV::Block(v) => "{\n"@ + self.lines(v, v.len() as int, deeper(ind)) + pad(ind)
                + seq!['}'],
            SxV::Var { name, value } => "const "@ + name + " = "@ + self.code(*value, ind)
                + seq![';'],
            SxV::Assign { target, op, value } => self.code(*target, ind) + seq![' '] + op
                + seq![' '] + self.code(*value, ind) + seq![';'],
            SxV::If { t, c, a } => "if ("@ + self.code(*t, ind) + ") {\n"@ + self.lines(
                c,
                c.len() as int,
                deeper(ind),
            ) + (if a.len() > 0 {
                pad(ind) + "} else {\n"@ + self.lines(a, a.len() as int, deeper(ind))
            } else {
                seq![]
            }) + pad(ind) + seq!['}'],
            SxV::For { init, t, u, body } => "for ("@ + (match init {
                Some(x) => self.code(*x, ind),
                None => seq![],
            }) + seq![';'] + (match t {
                Some(x) => seq![' '] + self.code(*x, ind),
                None => seq![],
            }) + seq![';'] + (match u {
                Some(x) => seq![' '] + self.code(*x, ind),
                None => seq![],
            }) + ") {\n"@ + self.lines(body, body.len() as int, deeper(ind)) + pad(ind)
                + seq!['}'],
            SxV::While { t, body } => "while ("@ + self.code(*t, ind) + ") {\n"@ + self.lines(
                body,
                body.len() as int,
                deeper(ind),
            ) + pad(ind) + seq!['}'],
            SxV::Try { body, handler, fin } => "try {\n"@ + self.lines(
                body,
                body.len() as int,
                deeper(ind),
            ) + pad(ind) + seq!['}'] + (match handler {
                Some(h) => " catch ("@ + h.0 + ") {\n"@ + self.lines(
                    h.1,
                    h.1.len() as int,
                    deeper(ind),
                ) + pad(ind) + seq!['}'],
                None => seq![],
            }) + (if fin.len() > 0 {
                " finally {\n"@ + self.lines(fin, fin.len() as int, deeper(ind)) + pad(ind)
                    + seq!['}']
            } else {
                seq![]
            }),
            SxV::Ret(x) => match x {
                None => "return;"@,
                Some(x) => "return "@ + self.code(*x, ind) + seq![';'],
            },
            SxV::Throw(x) => "throw "@ + self.code(*x, ind) + seq![';'],
            SxV::Break => "break;"@,
            SxV::Continue => "continue;"@,
            SxV::Empty => seq![],
        }
    }

    /// The first `n` trees of a list with `", "` between them.
    pub open spec fn list_code(&self, v: Seq<SxV>, n: int, ind: usize) -> Seq<char>
        decreases v, n,
    {
        if n <= 0 || n > v.len() {
            seq![]
        } else {
            self.list_code(v, n - 1, ind) + (if n > 1 { ", "@ } else { seq![] }) + self.code(
                v[n - 1],
                ind,
            )
        }
    }

    /// The first `n` properties of an object.
    pub open spec fn field_code(&self, v: Seq<(Seq<char>, SxV)>, n: int, ind: usize) -> Seq<char>
        decreases v, n,
    {
        if n <= 0 || n > v.len() {
            seq![]
        } else {
            self.field_code(v, n - 1, ind) + (if n > 1 { ", "@ } else { seq![] }) + key_text(
                v[n - 1].0,
            ) + ": "@ + self.code(v[n - 1].1, ind)
        }
    }

    /// A tree as a line of its own.
    pub open spec fn line(&self, sx: SxV, ind: usize) -> Seq<char>
        decreases sx, 1int,
    {
        if sx is Empty {
            seq![]
        } else {
            pad(ind) + self.code(sx, ind) + (if closes_itself(sx) { seq![] } else { seq![';'] })
                + seq!['\n']
        }
    }

    /// The first `n` trees of a list, each as a line.
    pub open spec fn lines(&self, v: Seq<SxV>, n: int, ind: usize) -> Seq<char>
        decreases v, n,
    {
        if n <= 0 || n > v.len() {
            seq![]
        } else {
            self.lines(v, n - 1, ind) + self.line(v[n - 1], ind)
        }
    }
}

fn render_list<F: FloatOps>(v: &Vec<Sx>, out: &mut String, ind: usize, fl: &F)
    requires
        fl.ok(),
    ensures
        final(out)@ == old(out)@ + fl.model().list_code(models(v@), v@.len() as int, ind),
    decreases v, 0int,
{
    let ghost start = out@;
    let ghost m = models(v@);
    let mut i: usize = 0;
    assert(out@ =~= start + fl.model().list_code(m, 0, ind));
    while i < v.len()
        invariant
            fl.ok(),
            i <= v@.len(),
            m == models(v@),
            out@ == start + fl.model().list_code(m, i as int, ind),
        decreases v@.len() - i,
    {
        if i > 0 {
            out.push_str(", ");
        }
        render(&v[i], out, ind, fl);
        i += 1;
        assert(out@ =~= start + fl.model().list_code(m, i as int, ind));
    }
}

fn render_fields<F: FloatOps>(v: &Vec<(String, Sx)>, out: &mut String, ind: usize, fl: &F)
    requires
        fl.ok(),
    ensures
        final(out)@ == old(out)@ + fl.model().field_code(field_models(v@), v@.len() as int, ind),
    decreases v, 0int,
{
    let ghost start = out@;
    let ghost m = field_models(v@);
    let mut i: usize = 0;
    assert(out@ =~= start + fl.model().field_code(m, 0, ind));
    while i < v.len()
        invariant
            fl.ok(),
            i <= v@.len(),
            m == field_models(v@),
            out@ == start + fl.model().field_code(m, i as int, ind),
        decreases v@.len() - i,
    {
        if i > 0 {
            out.push_str(", ");
        }
        if ident_ok(v[i].0.as_str()) {
            out.push_str(v[i].0.as_str());
        } else {
            out.push_str(js_quote(v[i].0.as_str()).as_str());
        }
        out.push_str(": ");
        assert(decreases_to!(v => v@[i as int].1));
        render(&v[i].1, out, ind, fl);
        i += 1;
        assert(out@ =~= start + fl.model().field_code(m, i as int, ind));
    }
}

/// Appends each tree of a list as a line.
pub fn render_lines<F: FloatOps>(v: &Vec<Sx>, out: &mut String, ind: usize, fl: &F)
    requires
        fl.ok(),
    ensures
        final(out)@ == old(out)@ + fl.model().lines(models(v@), v@.len() as int, ind),
    decreases v, 0int,
{
    let ghost start = out@;
    let ghost m = models(v@);
    let mut i: usize = 0;
    assert(out@ =~= start + fl.model().lines(m, 0, ind));
    while i < v.len()
        invariant
            fl.ok(),
            i <= v@.len(),
            m == models(v@),
            out@ == start + fl.model().lines(m, i as int, ind),
        decreases v@.len() - i,
    {
        render_stmt(&v[i], out, ind, fl);
        i += 1;
        assert(out@ =~= start + fl.model().lines(m, i as int, ind));
    }
}

fn close_block(ind: usize, out: &mut String)
    ensures
        final(out)@ == old(out)@ + pad(ind) + seq!['}'],
{
    indent(ind, out);
    out.push('}');
    assert(out@ =~= old(out)@ + pad(ind) + seq!['}']);
}

fn render_loop<F: FloatOps>(sx: &Sx, out: &mut String, ind: usize, fl: &F)
    requires
        fl.ok(),
        sx is For || sx is While,
    ensures
        final(out)@ == old(out)@ + fl.model().code(sx@, ind),
    decreases sx, 0int,
{
    broadcast use group_concat;

    match sx {
        Sx::For { init, t, u, body } => {
            out.push_str("for (");
            if let Some(x) = init {
                render(x, out, ind, fl);
            }
            out.push(';');
            if let Some(x) = t {
                out.push(' ');
                render(x, out, ind, fl);
            }
            out.push(';');
            if let Some(x) = u {
                out.push(' ');
                render(x, out, ind, fl);
            }
            out.push_str(") {\n");
            render_lines(body, out, down(ind), fl);
            close_block(ind, out);
        },
        Sx::While { t, body } => {
            out.push_str("while (");
            render(t, out, ind, fl);
            out.push_str(") {\n");
            render_lines(body, out, down(ind), fl);
            close_block(ind, out);
        },
        _ => {},
    }
}

fn render_branch<F: FloatOps>(sx: &Sx, out: &mut String, ind: usize, fl: &F)
    requires
        fl.ok(),
        sx is If || sx is Try,
    ensures
        final(out)@ == old(out)@ + fl.model().code(sx@, ind),
    decreases sx, 0int,
{
    broadcast use group_concat;

    match sx {
        Sx::If { t, c, a } => {
            out.push_str("if (");
            render(t, out, ind, fl);
            out.push_str(") {\n");
            render_lines(c, out, down(ind), fl);
            assert(models(a@).len() == a@.len());
            if a.len() > 0 {
                indent(ind, out);
                out.push_str("} else {\n");
                render_lines(a, out, down(ind), fl);
            }
            close_block(ind, out);
        },
        Sx::Try { body, handler, fin } => {
            out.push_str("try {\n");
            render_lines(body, out, down(ind), fl);
            close_block(ind, out);
            if let Some(h) = handler {
                out.push_str(" catch (");
                out.push_str(h.0.as_str());
                out.push_str(") {\n");
                render_lines(&h.1, out, down(ind), fl);
                close_block(ind, out);
            }
            assert(models(fin@).len() == fin@.len());
            if fin.len() > 0 {
                out.push_str(" finally {\n");
                render_lines(fin, out, down(ind), fl);
                close_block(ind, out);
            }
        },
        _ => {},
    }
}

fn render_definition<F: FloatOps>(sx: &Sx, out: &mut String, ind: usize, fl: &F)
    requires
        fl.ok(),
        sx is Fn || sx is Class || sx is Block,
    ensures
        final(out)@ == old(out)@ + fl.model().code(sx@, ind),
    decreases sx, 0int,
{
    broadcast use group_concat;

    match sx {
        Sx::Fn { params, body, arrow } => {
            if *arrow {
                out.push('(');
                join_commas(params, out);
                out.push_str(") => {\n");
            } else {
                out.push_str("function(");
                join_commas(params, out);
                out.push_str(") {\n");
            }
            render_lines(body, out, down(ind), fl);
            close_block(ind, out);
        },
        Sx::Class { name, super_ } => {
            out.push_str("class ");
            out.push_str(name.as_str());
            if let Some(s) = super_ {
                out.push_str(" extends ");
                render(s, out, ind, fl);
            }
            out.push_str(" {}");
        },
        Sx::Block(v) => {
            out.push_str("{\n");
            render_lines(v, out, down(ind), fl);
            close_block(ind, out);
        },
        _ => {},
    }
}

fn render_access<F: FloatOps>(sx: &Sx, out: &mut String, ind: usize, fl: &F)
    requires
        fl.ok(),
        sx is Member || sx is Index || sx is Call || sx is New,
    ensures
        final(out)@ == old(out)@ + fl.model().code(sx@, ind),
    decreases sx, 0int,
{
    broadcast use group_concat;

    match sx {
        Sx::Member { obj, prop } => {
            render(obj, out, ind, fl);
            if ident_ok(prop.as_str()) {
                out.push('.');
                out.push_str(prop.as_str());
            } else {
                out.push('[');
                out.push_str(js_quote(prop.as_str()).as_str());
                out.push(']');
            }
        },
        Sx::Index { obj, idx } => {
            render(obj, out, ind, fl);
            out.push('[');
            render(idx, out, ind, fl);
            out.push(']');
        },
        Sx::Call { callee, args } => {
            render(callee, out, ind, fl);
            out.push('(');
            render_list(args, out, ind, fl);
            out.push(')');
        },
        Sx::New { callee, args } => {
            out.push_str("new ");
            render(callee, out, ind, fl);
            out.push('(');
            render_list(args, out, ind, fl);
            out.push(')');
        },
        _ => {},
    }
}

fn render_operation<F: FloatOps>(sx: &Sx, out: &mut String, ind: usize, fl: &F)
    requires
        fl.ok(),
        sx is Bin || sx is Log || sx is Un || sx is Cond || sx is Assign || sx is Var,
    ensures
        final(out)@ == old(out)@ + fl.model().code(sx@, ind),
    decreases sx, 0int,
{
    broadcast use group_concat;

    match sx {
        Sx::Bin { op, l, r } | Sx::Log { op, l, r } => {
            render(l, out, ind, fl);
            out.push(' ');
            out.push_str(op);
            out.push(' ');
            render(r, out, ind, fl);
        },
        Sx::Un { op, a } => {
            out.push_str(op);
            if str_eq(op, "typeof") || str_eq(op, "delete") || str_eq(op, "void") {
                out.push(' ');
            }
            render(a, out, ind, fl);
        },
        Sx::Cond { t, c, a } => {
            render(t, out, ind, fl);
            out.push_str(" ? ");
            render(c, out, ind, fl);
            out.push_str(" : ");
            render(a, out, ind, fl);
        },
        Sx::Assign { target, op, value } => {
            render(target, out, ind, fl);
            out.push(' ');
            out.push_str(op);
            out.push(' ');
            render(value, out, ind, fl);
            out.push(';');
        },
        Sx::Var { name, value } => {
            out.push_str("const ");
            out.push_str(name.as_str());
            out.push_str(" = ");
            render(value, out, ind, fl);
            out.push(';');
        },
        _ => {},
    }
}

/// Appends the text of a tree that stands on a line with indentation `ind`.
pub fn render<F: FloatOps>(sx: &Sx, out: &mut String, ind: usize, fl: &F)
    requires
        fl.ok(),
    ensures
        final(out)@ == old(out)@ + fl.model().code(sx@, ind),
    decreases sx, 1int,
{
    broadcast use group_concat;

    match sx {
        Sx::Num(n) => out.push_str(format_js_num(*n, fl).as_str()),
        Sx::Str(s) => out.push_str(js_quote(s.as_str()).as_str()),
        Sx::Bool(b) => out.push_str(if *b { "true" } else { "false" }),
        Sx::Null => out.push_str("null"),
        Sx::Undef => out.push_str("undefined"),
        Sx::Ref(n) => out.push_str(n.as_str()),
        Sx::Arr(v) => {
            out.push('[');
            render_list(v, out, ind, fl);
            out.push(']');
        },
        Sx::Obj(v) => {
            out.push('{');
            render_fields(v, out, ind, fl);
            out.push('}');
        },
        Sx::Sequence(v) => render_list(v, out, ind, fl),
        Sx::Ret(x) => match x {
            None => out.push_str("return;"),
            Some(x) => {
                out.push_str("return ");
                render(x, out, ind, fl);
                out.push(';');
            },
        },
        Sx::Throw(x) => {
            out.push_str("throw ");
            render(x, out, ind, fl);
            out.push(';');
        },
        Sx::Break => out.push_str("break;"),
        Sx::Continue => out.push_str("continue;"),
        Sx::Empty => {},
        Sx::For { .. } | Sx::While { .. } => render_loop(sx, out, ind, fl),
        Sx::If { .. } | Sx::Try { .. } => render_branch(sx, out, ind, fl),
        Sx::Fn { .. } | Sx::Class { .. } | Sx::Block(_) => render_definition(sx, out, ind, fl),
        Sx::Member { .. } | Sx::Index { .. } | Sx::Call { .. } | Sx::New { .. } => render_access(sx, out, ind, fl),
        Sx::Bin { .. } | Sx::Log { .. } | Sx::Un { .. } | Sx::Cond { .. } | Sx::Assign { .. } | Sx::Var { .. } => render_operation(sx, out, ind, fl),
    }
}

/// Appends a tree as a line of its own.
pub fn render_stmt<F: FloatOps>(sx: &Sx, out: &mut String, ind: usize, fl: &F)
    requires
        fl.ok(),
    ensures
        final(out)@ == old(out)@ + fl.model().line(sx@, ind),
    decreases sx, 2int,
{
    let ghost start = out@;
    if let Sx::Empty = sx {
        assert(out@ =~= start + fl.model().line(sx@, ind));
        return;
    }
    indent(ind, out);
    render(sx, out, ind, fl);
    let closed: bool = match sx {
        Sx::If { .. } | Sx::For { .. } | Sx::While { .. } | Sx::Try { .. } | Sx::Block(_)
        | Sx::Var { .. } | Sx::Assign { .. } | Sx::Ret(_) | Sx::Throw(_) | Sx::Break
        | Sx::Continue | Sx::Fn { .. } | Sx::Class { .. } => true,
        _ => false,
    };
    if !closed {
        out.push(';');
    }
    out.push('\n');
    assert(out@ =~= start + fl.model().line(sx@, ind));
}

/// The text of a tree.
pub fn render_sx<F: FloatOps>(sx: &Sx, fl: &F) -> (s: String)
    requires
        fl.ok(),
    ensures
        s@ == fl.model().code(sx@, 0),
{
    let mut s = String::new();
    render(sx, &mut s, 0, fl);
    assert(s@ =~= fl.model().code(sx@, 0));
    s
}

} // verus!
