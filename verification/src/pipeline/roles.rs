//! Translating a checksum expression: to an arithmetic tree and, at the same
//! time, to a program.
use vstd::prelude::*;

use crate::floats::{FloatOps, FloatsV};
use crate::pipeline::mba::{
    compiled, emitted, is_tree, names_of, node_views, placed, slot, slot_of, var_name_for_arg, var_op, var_step,
    with_name, Emitted, Math, MathV,
};
use crate::pipeline::ops::{height, Op, Program};
use crate::pipeline::statics::{decoder, ident_of, name_of, num_lit, resolve_alias, Statics, StaticsV};
use crate::pipeline::sx::SxV;
use crate::pipeline::syntax::Expr;
use crate::text::{chars_of, join2, own, str_eq, string_of};

verus! {

/// Why a checksum cannot be translated.
pub struct TransErr(pub String);

impl TransErr {
    /// The reason in words.
    pub fn text(&self) -> (s: String)
        ensures
            s@ == "перевод checksum: "@ + self.0@,
    {
        join2("перевод checksum: ", self.0.as_str())
    }
}

/// What has been translated so far: the tree, the steps that compute it, and, in
/// slot order, the names of the looked up indices and the indices themselves.
pub struct Translator<'a> {
    pub st: &'a Statics,
    pub ops: Vec<Op>,
    pub names: Vec<String>,
    pub args: Vec<u64>,
    pub nodes: Vec<Math>,
}

/// A translated checksum.
pub struct Translated {
    pub program: Program,
    pub var_args: Vec<u64>,
    pub var_pairs: Vec<(String, u64)>,
    pub nodes: Vec<Math>,
}

/// The state of a [`Translator`] as a mathematical value.
pub struct TransV {
    pub ops: Seq<Op>,
    pub names: Seq<Seq<char>>,
    pub args: Seq<u64>,
    pub nodes: Seq<MathV>,
}

impl<'a> View for Translator<'a> {
    type V = TransV;

    open spec fn view(&self) -> TransV {
        TransV {
            ops: self.ops@,
            names: names_of(self.names@),
            args: self.args@,
            nodes: node_views(self.nodes@),
        }
    }
}

/// Nothing translated yet.
pub open spec fn untranslated() -> TransV {
    TransV { ops: seq![], names: seq![], args: seq![], nodes: seq![] }
}

/// The step of a binary operator.
pub open spec fn binary_op(op: Seq<char>) -> Option<Op> {
    if op == "+"@ {
        Some(Op::Add)
    } else if op == "-"@ {
        Some(Op::Sub)
    } else if op == "*"@ {
        Some(Op::Mul)
    } else if op == "/"@ {
        Some(Op::Div)
    } else if op == "%"@ {
        Some(Op::Mod)
    } else if op == "^"@ {
        Some(Op::Xor)
    } else if op == "&"@ {
        Some(Op::And)
    } else if op == "|"@ {
        Some(Op::Or)
    } else if op == "<<"@ {
        Some(Op::Shl)
    } else if op == ">>"@ {
        Some(Op::Shr)
    } else if op == ">>>"@ {
        Some(Op::Ushr)
    } else {
        None
    }
}

/// An operator of a checksum means one thing everywhere: folding two numbers in the
/// script gives what the checksum's step gives.
pub proof fn lemma_one_meaning(fl: FloatsV, op: Seq<char>, a: u64, b: u64)
    requires
        binary_op(op) is Some,
    ensures
        fl.binary(op, SxV::Num(a), SxV::Num(b)) == SxV::Num(fl.apply(binary_op(op)->0, a, b)),
        fl.arith(op, a, b) is Some ==> fl.arith(op, a, b) == Some(
            fl.apply(binary_op(op)->0, a, b),
        ),
{
    reveal_strlit("+");
    reveal_strlit("-");
    reveal_strlit("*");
    reveal_strlit("/");
    reveal_strlit("%");
    reveal_strlit("^");
    reveal_strlit("&");
    reveal_strlit("|");
    reveal_strlit("<<");
    reveal_strlit(">>");
    reveal_strlit(">>>");
    reveal_strlit("**");
    reveal_strlit("==");
    reveal_strlit("!=");
    reveal_strlit("===");
    reveal_strlit("!==");
    assert("+"@[0] == '+' && "-"@[0] == '-' && "*"@[0] == '*' && "/"@[0] == '/' && "%"@[0] == '%');
    assert("^"@[0] == '^' && "&"@[0] == '&' && "|"@[0] == '|' && "<<"@[0] == '<' && ">>"@[0] == '>');
    assert(">>>"@[0] == '>' && "**"@[0] == '*' && "=="@[0] == '=' && "!="@[0] == '!');
    assert("==="@[0] == '=' && "!=="@[0] == '!');
    assert(">>"@.len() == 2 && ">>>"@.len() == 3 && "*"@.len() == 1 && "**"@.len() == 2);
}

fn binary_step(op: &str) -> (r: Option<Op>)
    ensures
        r == binary_op(op@),
{
    if str_eq(op, "+") {
        Some(Op::Add)
    } else if str_eq(op, "-") {
        Some(Op::Sub)
    } else if str_eq(op, "*") {
        Some(Op::Mul)
    } else if str_eq(op, "/") {
        Some(Op::Div)
    } else if str_eq(op, "%") {
        Some(Op::Mod)
    } else if str_eq(op, "^") {
        Some(Op::Xor)
    } else if str_eq(op, "&") {
        Some(Op::And)
    } else if str_eq(op, "|") {
        Some(Op::Or)
    } else if str_eq(op, "<<") {
        Some(Op::Shl)
    } else if str_eq(op, ">>") {
        Some(Op::Shr)
    } else if str_eq(op, ">>>") {
        Some(Op::Ushr)
    } else {
        None
    }
}

/// The name of an operator that is not translated.
pub open spec fn operator_name(op: Seq<char>) -> Seq<char> {
    if op == "!"@ {
        "LogicalNot"@
    } else if op == "~"@ {
        "BitwiseNot"@
    } else if op == "typeof"@ {
        "Typeof"@
    } else if op == "void"@ {
        "Void"@
    } else if op == "delete"@ {
        "Delete"@
    } else if op == "**"@ {
        "Exponential"@
    } else if op == "=="@ {
        "Equality"@
    } else if op == "!="@ {
        "Inequality"@
    } else if op == "==="@ {
        "StrictEquality"@
    } else if op == "!=="@ {
        "StrictInequality"@
    } else if op == "<"@ {
        "LessThan"@
    } else if op == "<="@ {
        "LessEqualThan"@
    } else if op == ">"@ {
        "GreaterThan"@
    } else if op == ">="@ {
        "GreaterEqualThan"@
    } else if op == "instanceof"@ {
        "Instanceof"@
    } else if op == "in"@ {
        "In"@
    } else {
        op
    }
}

fn name_of_operator<'a>(op: &'a str) -> (r: &'a str)
    ensures
        r@ == operator_name(op@),
{
    if str_eq(op, "!") {
        "LogicalNot"
    } else if str_eq(op, "~") {
        "BitwiseNot"
    } else if str_eq(op, "typeof") {
        "Typeof"
    } else if str_eq(op, "void") {
        "Void"
    } else if str_eq(op, "delete") {
        "Delete"
    } else if str_eq(op, "**") {
        "Exponential"
    } else if str_eq(op, "==") {
        "Equality"
    } else if str_eq(op, "!=") {
        "Inequality"
    } else if str_eq(op, "===") {
        "StrictEquality"
    } else if str_eq(op, "!==") {
        "StrictInequality"
    } else if str_eq(op, "<") {
        "LessThan"
    } else if str_eq(op, "<=") {
        "LessEqualThan"
    } else if str_eq(op, ">") {
        "GreaterThan"
    } else if str_eq(op, ">=") {
        "GreaterEqualThan"
    } else if str_eq(op, "instanceof") {
        "Instanceof"
    } else if str_eq(op, "in") {
        "In"
    } else {
        op
    }
}

/// A callee that turns a text into a number: `parseInt`, as a name or a property,
/// and `Number`.
pub open spec fn converts(callee: &Expr) -> bool {
    match callee {
        Expr::Ident(s, _) => s@ == "parseInt"@ || s@ == "Number"@,
        Expr::Member { prop, .. } => prop@ == "parseInt"@,
        Expr::Index { idx, .. } => match **idx {
            Expr::Str { value, .. } => value@ == "parseInt"@,
            _ => false,
        },
        _ => false,
    }
}

fn is_parse_int(callee: &Expr) -> (r: bool)
    ensures
        r == converts(callee),
{
    match callee {
        Expr::Ident(s, _) => str_eq(s.as_str(), "parseInt") || str_eq(s.as_str(), "Number"),
        Expr::Member { prop, .. } => str_eq(prop.as_str(), "parseInt"),
        Expr::Index { idx, .. } => match &**idx {
            Expr::Str { value, .. } => str_eq(value.as_str(), "parseInt"),
            _ => false,
        },
        _ => false,
    }
}

/// How many bytes are kept of how the parser shows an expression: enough for what an
/// error shows of it.
pub const ROOM: u16 = 480;

/// How the parser shows an expression; nothing for the kinds that a checksum is made of.
pub open spec fn text_of(e: &Expr) -> Seq<char> {
    match e {
        Expr::Str { text, .. } => text@,
        Expr::Bool(_, text) => text@,
        Expr::Null(text) => text@,
        Expr::This(text) => text@,
        Expr::Ident(_, text) => text@,
        Expr::Member { text, .. } => text@,
        Expr::Index { text, .. } => text@,
        Expr::New { text, .. } => text@,
        Expr::Update { text, .. } => text@,
        Expr::Logical { text, .. } => text@,
        Expr::Cond { text, .. } => text@,
        Expr::Assign { text, .. } => text@,
        Expr::Sequence(_, text) => text@,
        Expr::Array(_, text) => text@,
        Expr::Object(_, text) => text@,
        Expr::Await { text, .. } => text@,
        Expr::Func(_, text) => text@,
        Expr::Arrow { text, .. } => text@,
        Expr::Class(_, text) => text@,
        Expr::Template { text, .. } => text@,
        Expr::Other { text, .. } => text@,
        Expr::Num(_) | Expr::Call { .. } | Expr::Unary { .. } | Expr::Binary { .. }
        | Expr::Paren(_) => seq![],
    }
}

fn find_text(e: &Expr) -> (r: &str)
    ensures
        r@ == text_of(e),
{
    match e {
        Expr::Str { text, .. } => text.as_str(),
        Expr::Bool(_, text) => text.as_str(),
        Expr::Null(text) => text.as_str(),
        Expr::This(text) => text.as_str(),
        Expr::Ident(_, text) => text.as_str(),
        Expr::Member { text, .. } => text.as_str(),
        Expr::Index { text, .. } => text.as_str(),
        Expr::New { text, .. } => text.as_str(),
        Expr::Update { text, .. } => text.as_str(),
        Expr::Logical { text, .. } => text.as_str(),
        Expr::Cond { text, .. } => text.as_str(),
        Expr::Assign { text, .. } => text.as_str(),
        Expr::Sequence(_, text) => text.as_str(),
        Expr::Array(_, text) => text.as_str(),
        Expr::Object(_, text) => text.as_str(),
        Expr::Await { text, .. } => text.as_str(),
        Expr::Func(_, text) => text.as_str(),
        Expr::Arrow { text, .. } => text.as_str(),
        Expr::Class(_, text) => text.as_str(),
        Expr::Template { text, .. } => text.as_str(),
        Expr::Other { text, .. } => text.as_str(),
        Expr::Num(_) | Expr::Call { .. } | Expr::Unary { .. } | Expr::Binary { .. }
        | Expr::Paren(_) => {
            proof {
                reveal_strlit("");
                assert(""@ =~= seq![]);
            }
            ""
        },
    }
}

/// What an error shows of a text: its first 120 characters.
pub open spec fn shown(s: Seq<char>) -> Seq<char> {
    if s.len() > 120 { s.take(120) } else { s }
}

fn show(s: &str) -> (r: String)
    ensures
        r@ == shown(s@),
{
    let v = chars_of(s);
    let n: usize = if v.len() > 120 { 120 } else { v.len() };
    assert(v@.subrange(0, n as int) =~= shown(s@));
    string_of(v.as_slice(), 0, n)
}

/// A node and its step, behind those there are.
pub open spec fn with_node(t: TransV, n: MathV, op: Op) -> TransV {
    TransV { ops: t.ops.push(op), nodes: t.nodes.push(n), names: t.names, args: t.args }
}

impl FloatsV {
    /// The translation of a lookup of the index `arg`.
    pub open spec fn looked_up(&self, t: TransV, arg: u64) -> TransV {
        let name = self.var_name(arg);
        TransV {
            ops: t.ops.push(var_op(slot(t.names, 0, name))),
            nodes: t.nodes.push(MathV::Var(name)),
            names: with_name(t.names, name),
            args: if slot(t.names, 0, name) == t.names.len() { t.args.push(arg) } else { t.args },
        }
    }

    /// The translation of an expression behind what has been translated, and the
    /// place of its node or the reason why there is none.
    pub open spec fn translated(&self, st: StaticsV, e: &Expr, t: TransV) -> (
        TransV,
        Result<int, Seq<char>>,
    )
        decreases e,
    {
        match e {
            Expr::Num(n) => (
                with_node(t, MathV::Num(*n), Op::Const(*n)),
                Ok(t.nodes.len() as int),
            ),
            Expr::Paren(p) => self.translated(st, p, t),
            Expr::Unary { op, arg } => if op@ == "-"@ {
                match self.translated(st, arg, t) {
                    (x, Ok(c)) => (with_node(x, MathV::Neg(c), Op::Neg), Ok(x.nodes.len() as int)),
                    (x, Err(m)) => (x, Err(m)),
                }
            } else if op@ == "+"@ {
                self.translated(st, arg, t)
            } else {
                (t, Err("unary "@ + operator_name(op@)))
            },
            Expr::Binary { op, l, r } => match self.translated(st, l, t) {
                (x, Ok(a)) => match self.translated(st, r, x) {
                    (y, Ok(b)) => match binary_op(op@) {
                        Some(o) => (
                            with_node(y, MathV::Bin { op: o, l: a, r: b }, o),
                            Ok(y.nodes.len() as int),
                        ),
                        None => (y, Err("binary "@ + operator_name(op@))),
                    },
                    (y, Err(m)) => (y, Err(m)),
                },
                (x, Err(m)) => (x, Err(m)),
            },
            Expr::Call { callee, args, .. } => if converts(callee) {
                if args@.len() > 0 {
                    match args@[0] {
                        Some(x) => self.translated(st, &x, t),
                        None => (t, Err("преобразование без аргумента"@)),
                    }
                } else {
                    (t, Err("преобразование без аргумента"@))
                }
            } else {
                match name_of(callee) {
                    None => (t, Err("выражение-калли"@)),
                    Some(name) => if decoder(st, name) is None {
                        (t, Err("неизвестный вызов "@ + name))
                    } else if args@.len() > 0 && args@[0] is Some && self.constant(
                        &args@[0]->0,
                    ) is Some {
                        (
                            self.looked_up(t, self.constant(&args@[0]->0)->0),
                            Ok(t.nodes.len() as int),
                        )
                    } else {
                        (t, Err("нелитеральный аргумент декодера "@ + name))
                    },
                }
            },
            _ => (t, Err(shown(text_of(e)))),
        }
    }
}

// ------------------------------------------------------------------------------ laws

proof fn lemma_emitted_prefix(v: Seq<MathV>, w: Seq<MathV>, i: int, e: Emitted)
    requires
        is_tree(v),
        is_tree(w),
        v.len() <= w.len(),
        w.take(v.len() as int) == v,
        0 <= i < v.len(),
    ensures
        emitted(w, i, e) == emitted(v, i, e),
    decreases i,
{
    assert(placed(v, i));
    assert(w[i] == w.take(v.len() as int)[i]);
    match v[i] {
        MathV::Neg(a) => lemma_emitted_prefix(v, w, a, e),
        MathV::Bin { l, r, .. } => {
            lemma_emitted_prefix(v, w, l, e);
            lemma_emitted_prefix(v, w, r, emitted(v, l, e));
        },
        _ => {},
    }
}

proof fn lemma_tree_push(v: Seq<MathV>, n: MathV)
    requires
        v.len() == 0 || is_tree(v),
        placed(v.push(n), v.len() as int),
    ensures
        is_tree(v.push(n)),
        v.push(n).take(v.len() as int) == v,
{
    let w = v.push(n);
    assert forall|i: int| 0 <= i < w.len() implies #[trigger] placed(w, i) by {
        if i < v.len() {
            assert(placed(v, i));
            assert(w[i] == v[i]);
        }
    }
    assert(w.take(v.len() as int) =~= v);
}

/// A state in which the nodes form a tree, if there are any, and every name has an
/// index.
pub open spec fn consistent(t: TransV) -> bool {
    &&& t.nodes.len() == 0 || is_tree(t.nodes)
    &&& t.names.len() == t.args.len()
}

/// Where an expression is translated, its node is the last one, the nodes before
/// are as they were, and the steps are those that compute the node.
pub proof fn lemma_translated(fl: FloatsV, st: StaticsV, e: &Expr, t: TransV)
    requires
        consistent(t),
        fl.translated(st, e, t).1 is Ok,
    ensures
        ({
            let (x, r) = fl.translated(st, e, t);
            &&& consistent(x)
            &&& x.nodes.len() > t.nodes.len()
            &&& r == Ok::<int, Seq<char>>(x.nodes.len() - 1)
            &&& x.nodes.take(t.nodes.len() as int) == t.nodes
            &&& emitted(x.nodes, x.nodes.len() - 1, Emitted { ops: t.ops, names: t.names })
                == (Emitted { ops: x.ops, names: x.names })
        }),
    decreases e,
{
    let (x, r) = fl.translated(st, e, t);
    match e {
        Expr::Num(n) => {
            lemma_tree_push(t.nodes, MathV::Num(*n));
        },
        Expr::Paren(p) => {
            lemma_translated(fl, st, p, t);
        },
        Expr::Unary { op, arg } => {
            lemma_translated(fl, st, arg, t);
            if op@ == "-"@ {
                let y = fl.translated(st, arg, t).0;
                let n = MathV::Neg(y.nodes.len() - 1);
                lemma_tree_push(y.nodes, n);
                lemma_emitted_prefix(
                    y.nodes,
                    y.nodes.push(n),
                    y.nodes.len() - 1,
                    Emitted { ops: t.ops, names: t.names },
                );
                assert(x.nodes.take(t.nodes.len() as int) =~= y.nodes.take(t.nodes.len() as int));
            }
        },
        Expr::Binary { op, l, r: right } => {
            lemma_translated(fl, st, l, t);
            let y = fl.translated(st, l, t).0;
            lemma_translated(fl, st, right, y);
            let z = fl.translated(st, right, y).0;
            let o = binary_op(op@)->0;
            let n = MathV::Bin { op: o, l: y.nodes.len() - 1, r: z.nodes.len() - 1 };
            lemma_tree_push(z.nodes, n);
            let e0 = Emitted { ops: t.ops, names: t.names };
            lemma_emitted_prefix(y.nodes, z.nodes, y.nodes.len() - 1, e0);
            lemma_emitted_prefix(z.nodes, z.nodes.push(n), y.nodes.len() - 1, e0);
            lemma_emitted_prefix(
                z.nodes,
                z.nodes.push(n),
                z.nodes.len() - 1,
                Emitted { ops: y.ops, names: y.names },
            );
            assert(x.nodes.take(t.nodes.len() as int) =~= y.nodes.take(t.nodes.len() as int)) by {
                assert forall|i: int| 0 <= i < t.nodes.len() implies x.nodes[i] == y.nodes[i] by {
                    assert(z.nodes.take(y.nodes.len() as int)[i] == y.nodes[i]);
                }
            }
        },
        Expr::Call { callee, args, .. } => {
            if converts(callee) {
                lemma_translated(fl, st, &args@[0]->0, t);
            } else {
                let name = fl.var_name(fl.constant(&args@[0]->0)->0);
                lemma_tree_push(t.nodes, MathV::Var(name));
            }
        },
        _ => {},
    }
}

/// The program of a translated checksum is the program of its tree.
pub proof fn lemma_translation_compiles(fl: FloatsV, st: StaticsV, e: &Expr)
    requires
        fl.translated(st, e, untranslated()).1 is Ok,
    ensures
        ({
            let x = fl.translated(st, e, untranslated()).0;
            &&& is_tree(x.nodes)
            &&& x.names.len() == x.args.len()
            &&& compiled(x.nodes) == (Emitted { ops: x.ops, names: x.names })
            &&& height(x.ops) == Some(1int)
        }),
{
    lemma_translated(fl, st, e, untranslated());
    let x = fl.translated(st, e, untranslated()).0;
    crate::pipeline::mba::lemma_emitted_height(
        x.nodes,
        x.nodes.len() - 1,
        Emitted { ops: seq![], names: seq![] },
    );
}

// ------------------------------------------------------------------------ translating

/// `r` is the place or the reason `s`.
pub open spec fn same_result(r: Result<usize, TransErr>, s: Result<int, Seq<char>>) -> bool {
    match s {
        Ok(i) => r matches Ok(j) && j == i,
        Err(m) => r matches Err(x) && x.0@ == m,
    }
}

impl<'a> Translator<'a> {
    /// A translator that knows the lookup functions of `st`.
    pub fn new(st: &'a Statics) -> (t: Self)
        ensures
            t@ == untranslated(),
            t.st == st,
    {
        let t = Translator {
            st,
            ops: Vec::new(),
            names: Vec::new(),
            args: Vec::new(),
            nodes: Vec::new(),
        };
        assert(t@.names =~= seq![]);
        assert(t@.nodes =~= seq![]);
        t
    }

    /// Takes the translation out, with each index under its name.
    pub fn finish(self) -> (r: Translated)
        requires
            consistent(self@),
        ensures
            r.program.ops@ == self@.ops,
            r.program.n_vars == self@.names.len(),
            r.var_args@ == self@.args,
            r.var_pairs@.len() == self@.names.len(),
            forall|i: int|
                0 <= i < r.var_pairs@.len() ==> (#[trigger] r.var_pairs@[i]).0@ == self@.names[i]
                    && r.var_pairs@[i].1 == self@.args[i],
            node_views(r.nodes@) == self@.nodes,
    {
        let mut pairs: Vec<(String, u64)> = Vec::new();
        let n: usize = self.names.len();
        assert(self@.names.len() == n);
        let mut i: usize = 0;
        while i < n
            invariant
                n == self.names@.len(),
                n == self.args@.len(),
                i <= n,
                pairs@.len() == i,
                forall|k: int|
                    0 <= k < i ==> (#[trigger] pairs@[k]).0@ == self.names@[k]@ && pairs@[k].1
                        == self.args@[k],
            decreases n - i,
        {
            pairs.push((own(self.names[i].as_str()), self.args[i]));
            i += 1;
        }
        Translated {
            program: Program { ops: self.ops, n_vars: n },
            var_args: self.args,
            var_pairs: pairs,
            nodes: self.nodes,
        }
    }

    fn node(&mut self, n: Math, op: Op) -> (r: usize)
        ensures
            final(self)@ == with_node(old(self)@, n@, op),
            final(self).st == old(self).st,
            r == old(self)@.nodes.len(),
    {
        let ghost before = self@;
        let r: usize = self.nodes.len();
        assert(before.nodes.len() == r);
        self.nodes.push(n);
        self.ops.push(op);
        assert(self@.nodes =~= before.nodes.push(n@));
        r
    }

    fn lookup<F: FloatOps>(&mut self, arg: u64, fl: &F) -> (r: usize)
        requires
            fl.ok(),
        ensures
            final(self)@ == fl.model().looked_up(old(self)@, arg),
            final(self).st == old(self).st,
            r == old(self)@.nodes.len(),
    {
        let ghost before = self@;
        let name = var_name_for_arg(arg, fl);
        let k: usize = slot_of(&self.names, name.as_str());
        assert(before.names.len() == self.names@.len());
        if k == self.names.len() {
            self.names.push(own(name.as_str()));
            self.args.push(arg);
        }
        assert(names_of(self.names@) =~= with_name(before.names, name@));
        self.node(Math::Var(name), var_step(k))
    }

    /// Translates an expression behind what has been translated. One that has no
    /// translation is shown in the error.
    pub fn expr<F: FloatOps>(&mut self, e: &Expr, fl: &F) -> (r: Result<usize, TransErr>)
        requires
            fl.ok(),
        ensures
            final(self)@ == fl.model().translated(old(self).st@, e, old(self)@).0,
            same_result(r, fl.model().translated(old(self).st@, e, old(self)@).1),
            final(self).st == old(self).st,
        decreases e,
    {
        match e {
            Expr::Num(n) => Ok(self.node(Math::Num(*n), Op::Const(*n))),
            Expr::Paren(p) => self.expr(p, fl),
            Expr::Unary { op, arg } => {
                if str_eq(op, "-") {
                    match self.expr(arg, fl) {
                        Ok(c) => Ok(self.node(Math::Neg(c), Op::Neg)),
                        Err(m) => Err(m),
                    }
                } else if str_eq(op, "+") {
                    self.expr(arg, fl)
                } else {
                    Err(TransErr(join2("unary ", name_of_operator(op))))
                }
            },
            Expr::Binary { op, l, r } => {
                let a: usize = match self.expr(l, fl) {
                    Ok(a) => a,
                    Err(m) => return Err(m),
                };
                let b: usize = match self.expr(r, fl) {
                    Ok(b) => b,
                    Err(m) => return Err(m),
                };
                match binary_step(op) {
                    Some(o) => Ok(self.node(Math::Bin { op: o, l: a, r: b }, o)),
                    None => Err(TransErr(join2("binary ", name_of_operator(op)))),
                }
            },
            Expr::Call { callee, args, .. } => {
                let first: Option<&Expr> = if args.len() > 0 { args[0].as_ref() } else { None };
                if is_parse_int(callee) {
                    return match first {
                        Some(x) => {
                            assert(decreases_to!(e => args@[0]->0));
                            self.expr(x, fl)
                        },
                        None => Err(TransErr(own("преобразование без аргумента"))),
                    };
                }
                let name = match ident_of(callee) {
                    Some(n) => n,
                    None => return Err(TransErr(own("выражение-калли"))),
                };
                if resolve_alias(self.st, name).is_none() {
                    return Err(TransErr(join2("неизвестный вызов ", name)));
                }
                let arg: Option<u64> = match first {
                    Some(x) => num_lit(x, fl),
                    None => None,
                };
                match arg {
                    Some(a) => Ok(self.lookup(a, fl)),
                    None => Err(TransErr(join2("нелитеральный аргумент декодера ", name))),
                }
            },
            _ => Err(TransErr(show(find_text(e)))),
        }
    }
}

} // verus!
