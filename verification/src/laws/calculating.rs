//! What a checksum computes, how it is translated and simplified, and how its form is
//! named.
use vstd::prelude::*;

#[allow(unused_imports)]
use crate::floats::{ArithOp, FloatsV};
#[allow(unused_imports)]
use crate::jsnum::{bits_of_int, int32_of, lemma_whole_order, negated, uint32_of};
#[allow(unused_imports)]
use crate::pipeline::jit::JitErrV;
#[allow(unused_imports)]
use crate::pipeline::mba::{
    alike, ascending, byte_order, distinct, factors, familiar, family, is_tree, known, placed, slot,
    summands, tag, template, term, term_text, MathV, TermV,
};
#[allow(unused_imports)]
use crate::pipeline::ops::{code, hashed, hashed_all, low_bytes, Op};
#[allow(unused_imports)]
use crate::pipeline::roles::{binary_op, converts, lemma_one_meaning, shown, TransV};
#[allow(unused_imports)]
use crate::pipeline::statics::{decoder, StaticsV};
#[allow(unused_imports)]
use crate::pipeline::sx::SxV;
#[allow(unused_imports)]
use crate::pipeline::syntax::Expr;
#[allow(unused_imports)]
use crate::pipeline::table::wrap64;
#[allow(unused_imports)]
use crate::text::{decimal, digits};

verus! {

// ---------------------------------------------------------------------------- programs

/// One step more: a number and a variable go on top of the stack, as long as fewer than
/// sixty-four are there; a minus sign turns the top around; an operation takes the two on
/// top, the lower one on its left.
pub proof fn lemma_one_step(
    fl: FloatsV,
    ops: Seq<Op>,
    vars: Seq<u64>,
    rest: Seq<u64>,
    a: u64,
    b: u64,
    c: u64,
    i: u8,
    op: Op,
)
    ensures
        fl.stack(seq![], vars) == Some(Seq::<u64>::empty()),
        fl.stack(ops, vars) == Some(rest) && rest.len() < 64 ==> fl.stack(
            ops.push(Op::Const(c)),
            vars,
        ) == Some(rest.push(c)),
        fl.stack(ops, vars) == Some(rest) && rest.len() < 64 && i < vars.len() ==> fl.stack(
            ops.push(Op::Var(i)),
            vars,
        ) == Some(rest.push(vars[i as int])),
        fl.stack(ops, vars) == Some(rest) && i >= vars.len() ==> fl.stack(
            ops.push(Op::Var(i)),
            vars,
        ) is None,
        fl.stack(ops, vars) == Some(rest) && rest.len() >= 64 ==> fl.stack(
            ops.push(Op::Const(c)),
            vars,
        ) is None,
        fl.stack(ops, vars) == Some(rest.push(a)) ==> fl.stack(ops.push(Op::Neg), vars) == Some(
            rest.push(negated(a)),
        ),
        fl.stack(ops, vars) == Some(rest.push(a).push(b)) && !(op is Const) && !(op is Var) && !(
        op is Neg) ==> fl.stack(ops.push(op), vars) == Some(rest.push(fl.apply(op, a, b))),
        fl.stack(ops, vars) is None ==> fl.stack(ops.push(op), vars) is None,
        fl.stack(ops, vars) == Some(rest.push(a)) ==> fl.outcome(ops, vars) == a,
        fl.stack(ops, vars) is None ==> fl.outcome(ops, vars) == 0x7ff8_0000_0000_0000,
{
    assert(ops.push(Op::Const(c)).drop_last() =~= ops);
    assert(ops.push(Op::Var(i)).drop_last() =~= ops);
    assert(ops.push(Op::Neg).drop_last() =~= ops);
    assert(ops.push(op).drop_last() =~= ops);
    assert(rest.push(a).drop_last() =~= rest);
    assert(rest.push(a).push(b).drop_last() =~= rest.push(a));
}

proof fn lemma_operator_signs()
    ensures
        "+"@.len() == 1 && "+"@[0] == '+',
        "-"@.len() == 1 && "-"@[0] == '-',
        "*"@.len() == 1 && "*"@[0] == '*',
        "/"@.len() == 1 && "/"@[0] == '/',
        "%"@.len() == 1 && "%"@[0] == '%',
        "^"@.len() == 1 && "^"@[0] == '^',
        "&"@.len() == 1 && "&"@[0] == '&',
        "|"@.len() == 1 && "|"@[0] == '|',
        "<<"@.len() == 2 && "<<"@[0] == '<',
        ">>"@.len() == 2 && ">>"@[0] == '>',
        ">>>"@.len() == 3,
{
    reveal_strlit("+");
    reveal_strlit("-");
    reveal_strlit("*");
    reveal_strlit("/");
    reveal_strlit("%");
    reveal_strlit("^");
    reveal_strlit("&");
    reveal_strlit("|");
    reveal_strlit("<<");
    reveal_strlit(">>");
    reveal_strlit(">>>");
}

/// The step of each operator, and no other.
pub proof fn lemma_operator_steps(op: Seq<char>)
    ensures
        binary_op("+"@) == Some(Op::Add),
        binary_op("-"@) == Some(Op::Sub),
        binary_op("*"@) == Some(Op::Mul),
        binary_op("/"@) == Some(Op::Div),
        binary_op("%"@) == Some(Op::Mod),
        binary_op("^"@) == Some(Op::Xor),
        binary_op("&"@) == Some(Op::And),
        binary_op("|"@) == Some(Op::Or),
        binary_op("<<"@) == Some(Op::Shl),
        binary_op(">>"@) == Some(Op::Shr),
        binary_op(">>>"@) == Some(Op::Ushr),
        op != "+"@ && op != "-"@ && op != "*"@ && op != "/"@ && op != "%"@ && op != "^"@ && op
            != "&"@ && op != "|"@ && op != "<<"@ && op != ">>"@ && op != ">>>"@ ==> binary_op(
            op,
        ) is None,
{
    lemma_operator_signs();
}

/// A step computes what its operator folds to.
pub proof fn lemma_step_meaning(fl: FloatsV, a: u64, b: u64)
    ensures
        SxV::Num(fl.apply(Op::Add, a, b)) == fl.binary("+"@, SxV::Num(a), SxV::Num(b)),
        SxV::Num(fl.apply(Op::Sub, a, b)) == fl.binary("-"@, SxV::Num(a), SxV::Num(b)),
        SxV::Num(fl.apply(Op::Mul, a, b)) == fl.binary("*"@, SxV::Num(a), SxV::Num(b)),
        SxV::Num(fl.apply(Op::Div, a, b)) == fl.binary("/"@, SxV::Num(a), SxV::Num(b)),
        SxV::Num(fl.apply(Op::Mod, a, b)) == fl.binary("%"@, SxV::Num(a), SxV::Num(b)),
        SxV::Num(fl.apply(Op::Xor, a, b)) == fl.binary("^"@, SxV::Num(a), SxV::Num(b)),
        SxV::Num(fl.apply(Op::And, a, b)) == fl.binary("&"@, SxV::Num(a), SxV::Num(b)),
        SxV::Num(fl.apply(Op::Or, a, b)) == fl.binary("|"@, SxV::Num(a), SxV::Num(b)),
        SxV::Num(fl.apply(Op::Shl, a, b)) == fl.binary("<<"@, SxV::Num(a), SxV::Num(b)),
        SxV::Num(fl.apply(Op::Shr, a, b)) == fl.binary(">>"@, SxV::Num(a), SxV::Num(b)),
        SxV::Num(fl.apply(Op::Ushr, a, b)) == fl.binary(">>>"@, SxV::Num(a), SxV::Num(b)),
        fl.apply(Op::Add, a, b) == (fl.op)(ArithOp::Add, a, b),
        fl.apply(Op::Sub, a, b) == (fl.op)(ArithOp::Sub, a, b),
        fl.apply(Op::Mul, a, b) == (fl.op)(ArithOp::Mul, a, b),
        fl.apply(Op::Div, a, b) == (fl.op)(ArithOp::Div, a, b),
        fl.apply(Op::Mod, a, b) == (fl.op)(ArithOp::Rem, a, b),
{
    lemma_operator_steps("+"@);
    lemma_one_meaning(fl, "+"@, a, b);
    lemma_one_meaning(fl, "-"@, a, b);
    lemma_one_meaning(fl, "*"@, a, b);
    lemma_one_meaning(fl, "/"@, a, b);
    lemma_one_meaning(fl, "%"@, a, b);
    lemma_one_meaning(fl, "^"@, a, b);
    lemma_one_meaning(fl, "&"@, a, b);
    lemma_one_meaning(fl, "|"@, a, b);
    lemma_one_meaning(fl, "<<"@, a, b);
    lemma_one_meaning(fl, ">>"@, a, b);
    lemma_one_meaning(fl, ">>>"@, a, b);
}

/// What stands for a step in the hash of a program: a mark and the eight bytes of a number,
/// a mark and the number of a variable, or the place of an operation in the list of steps
/// in eight bytes.
pub proof fn lemma_step_bytes(c: u64, i: u8, op: Op)
    ensures
        hashed(Op::Const(c)) == seq![seq![0u8], low_bytes(c as nat, 8)],
        hashed(Op::Var(i)) == seq![seq![1u8], seq![i]],
        !(op is Const) && !(op is Var) ==> hashed(op) == seq![low_bytes(code(op) as nat, 8)],
        code(Op::Add) == 2 && code(Op::Sub) == 3 && code(Op::Mul) == 4 && code(Op::Div) == 5,
        code(Op::Mod) == 6 && code(Op::Neg) == 7 && code(Op::Xor) == 8 && code(Op::And) == 9,
        code(Op::Or) == 10 && code(Op::Shl) == 11 && code(Op::Shr) == 12 && code(Op::Ushr) == 13,
{
}

/// The bytes of a number, the lowest first.
pub proof fn lemma_low_bytes(n: nat, k: nat)
    ensures
        low_bytes(n, k).len() == k,
        k > 0 ==> low_bytes(n, k)[0] == n % 256,
        k > 0 ==> low_bytes(n, k).skip(1) == low_bytes(n / 256, (k - 1) as nat),
    decreases k,
{
    if k > 0 {
        lemma_low_bytes(n / 256, (k - 1) as nat);
        assert(low_bytes(n, k).skip(1) =~= low_bytes(n / 256, (k - 1) as nat));
    }
}

/// The steps of a program are hashed in their order.
pub proof fn lemma_hash_order(ops: Seq<Op>, n: int)
    requires
        0 <= n < ops.len(),
    ensures
        hashed_all(ops, 0) == Seq::<Seq<u8>>::empty(),
        hashed_all(ops, n + 1) == hashed_all(ops, n) + hashed(ops[n]),
{
}

// ------------------------------------------------------------------------- translation

/// The callees that turn a text into a number.
pub proof fn lemma_converting(e: &Expr)
    ensures
        e is Ident ==> (converts(e) <==> e->Ident_0@ == "parseInt"@ || e->Ident_0@ == "Number"@),
        e is Member ==> (converts(e) <==> e->Member_prop@ == "parseInt"@),
        e is Index && (*e->Index_idx) is Str ==> (converts(e) <==> (*e->Index_idx)->Str_value@
            == "parseInt"@),
        e is Index && !((*e->Index_idx) is Str) ==> !converts(e),
        !(e is Ident) && !(e is Member) && !(e is Index) ==> !converts(e),
{
}

/// The plain forms: a number is a node of its own, brackets and a plus sign change nothing,
/// a minus sign is a node above its operand, and a conversion is its argument.
pub proof fn lemma_translated_forms(fl: FloatsV, st: StaticsV, e: &Expr, t: TransV)
    ensures
        e is Num ==> fl.translated(st, e, t) == (
            TransV {
                ops: t.ops.push(Op::Const(e->Num_0)),
                nodes: t.nodes.push(MathV::Num(e->Num_0)),
                names: t.names,
                args: t.args,
            },
            Ok::<int, Seq<char>>(t.nodes.len() as int),
        ),
        e is Paren ==> fl.translated(st, e, t) == fl.translated(st, &*e->Paren_0, t),
        e is Unary && e->Unary_op@ == "+"@ ==> fl.translated(st, e, t) == fl.translated(
            st,
            &*e->Unary_arg,
            t,
        ),
        e is Unary && e->Unary_op@ == "-"@ && fl.translated(st, &*e->Unary_arg, t).1 is Ok ==> ({
            let (x, c) = fl.translated(st, &*e->Unary_arg, t);
            &&& fl.translated(st, e, t).0.ops == x.ops.push(Op::Neg)
            &&& fl.translated(st, e, t).0.nodes == x.nodes.push(MathV::Neg(c->Ok_0))
            &&& fl.translated(st, e, t).1 == Ok::<int, Seq<char>>(x.nodes.len() as int)
        }),
        e is Call && converts(&*e->Call_callee) && e->Call_args@.len() > 0 && e->Call_args@[0] is Some
            ==> fl.translated(st, e, t) == fl.translated(st, &e->Call_args@[0]->0, t),
        e is Str || e is Bool || e is Cond ==> fl.translated(st, e, t).1 is Err,
{
    lemma_operator_signs();
}

/// An operation is translated behind its operands, the left one first.
pub proof fn lemma_translated_operation(
    fl: FloatsV,
    st: StaticsV,
    e: &Expr,
    t: TransV,
    x: TransV,
    a: int,
    y: TransV,
    b: int,
)
    requires
        e is Binary,
        fl.translated(st, &*e->Binary_l, t) == (x, Ok::<int, Seq<char>>(a)),
        fl.translated(st, &*e->Binary_r, x) == (y, Ok::<int, Seq<char>>(b)),
    ensures
        binary_op(e->Binary_op@) matches Some(o) ==> fl.translated(st, e, t) == (
            TransV {
                ops: y.ops.push(o),
                nodes: y.nodes.push(MathV::Bin { op: o, l: a, r: b }),
                names: y.names,
                args: y.args,
            },
            Ok::<int, Seq<char>>(y.nodes.len() as int),
        ),
        binary_op(e->Binary_op@) is None ==> fl.translated(st, e, t).1 is Err,
{
}

/// A lookup is a variable that is named by its index. An index that has been looked up
/// before is the same variable; a new one is a new variable behind the others.
pub proof fn lemma_translated_lookup(fl: FloatsV, st: StaticsV, e: &Expr, t: TransV, n: u64)
    requires
        e is Call,
        !converts(&*e->Call_callee),
        (*e->Call_callee) is Ident,
        decoder(st, (*e->Call_callee)->Ident_0@) is Some,
        e->Call_args@.len() > 0,
        e->Call_args@[0] is Some,
        fl.constant(&e->Call_args@[0]->0) == Some(n),
    ensures
        ({
            let (x, r) = fl.translated(st, e, t);
            let name = fl.var_name(n);
            &&& r == Ok::<int, Seq<char>>(t.nodes.len() as int)
            &&& x.nodes == t.nodes.push(MathV::Var(name))
            &&& !t.names.contains(name) ==> x.names == t.names.push(name) && x.args == t.args.push(n)
                && x.ops == t.ops.push(Op::Var((t.names.len() % 256) as u8))
            &&& t.names.contains(name) ==> x.names == t.names && x.args == t.args
        }),
{
    let name = fl.var_name(n);
    lemma_slot_place(t.names, 0, name);
    if t.names.contains(name) {
        let i = choose|i: int| 0 <= i < t.names.len() && t.names[i] == name;
        assert(t.names[i] == name);
    }
}

/// A name has the slot at which it stands first.
pub proof fn lemma_slot_place(names: Seq<Seq<char>>, i: int, name: Seq<char>)
    requires
        0 <= i <= names.len(),
    ensures
        i <= slot(names, i, name) <= names.len(),
        slot(names, i, name) < names.len() ==> names[slot(names, i, name)] == name,
        forall|j: int| i <= j < slot(names, i, name) ==> (#[trigger] names[j]) != name,
    decreases names.len() - i,
{
    if i < names.len() && names[i] != name {
        lemma_slot_place(names, i + 1, name);
    }
}

/// A variable is named `a` and its index in hexadecimal.
pub proof fn lemma_variable_name(fl: FloatsV, n: int)
    requires
        0 <= n < 1_000_000_000,
    ensures
        fl.var_name(bits_of_int(n) as u64) == seq!['a'] + digits(n as nat, 16),
{
    lemma_whole_order(0, n);
    lemma_whole_order(n, 1_000_000_000);
    lemma_whole_order(n, n);
    crate::jsnum::lemma_exact(n as nat);
    assert(bits_of_int(0) == 0);
    lemma_thousand_million();
}

proof fn lemma_thousand_million()
    ensures
        bits_of_int(1_000_000_000) as u64 == crate::pipeline::mba::E9,
{
    vstd::arithmetic::power2::lemma2_to64();
    vstd::arithmetic::power2::lemma2_to64_rest();
    reveal_with_fuel(crate::jsnum::top_bit, 32);
    assert(crate::jsnum::top_bit(1_000_000_000) == 29);
}

/// A reason shows at most a hundred and twenty characters of a text.
pub proof fn lemma_shown(s: Seq<char>)
    ensures
        s.len() <= 120 ==> shown(s) == s,
        s.len() > 120 ==> shown(s).len() == 120 && shown(s) == s.take(120),
{
}

/// Cutting a number down to sixty-four bits keeps it up to a multiple of their range.
pub proof fn lemma_cut(x: int)
    ensures
        (wrap64(x) - x) % 0x1_0000_0000_0000_0000 == 0,
        i64::MIN <= x <= i64::MAX ==> wrap64(x) == x,
{
    let m = 0x1_0000_0000_0000_0000int;
    let q = x / m;
    let low = x % m;
    assert(x == m * q + low);
    assert(0 <= low < m);
    if low >= 0x8000_0000_0000_0000 {
        assert((low - m - x) % m == 0) by {
            assert(low - m - x == -(q + 1) * m) by (nonlinear_arith)
                requires
                    x == m * q + low,
            ;
            vstd::arithmetic::div_mod::lemma_mod_multiples_basic(-(q + 1), m);
        }
    } else {
        assert((low - x) % m == 0) by {
            assert(low - x == (-q) * m) by (nonlinear_arith)
                requires
                    x == m * q + low,
            ;
            vstd::arithmetic::div_mod::lemma_mod_multiples_basic(-q, m);
        }
    }
}

// ---------------------------------------------------------------------------- the form

/// The letters of a form.
pub proof fn lemma_letters(n: u64, s: Seq<char>, l: int, r: int)
    ensures
        tag(MathV::Num(n)) == 0x4e,
        tag(MathV::Var(s)) == 0x56,
        tag(MathV::Neg(l)) == 0x53,
        tag(MathV::Bin { op: Op::Xor, l, r }) == 0x78,
        tag(MathV::Bin { op: Op::And, l, r }) == 0x61,
        tag(MathV::Bin { op: Op::Or, l, r }) == 0x6f,
        tag(MathV::Bin { op: Op::Shl, l, r }) == 0x4c,
        tag(MathV::Bin { op: Op::Shr, l, r }) == 0x52,
        tag(MathV::Bin { op: Op::Ushr, l, r }) == 0x55,
        tag(MathV::Bin { op: Op::Mod, l, r }) == 0x6d,
        tag(MathV::Bin { op: Op::Add, l, r }) == 0x3f,
        tag(MathV::Bin { op: Op::Sub, l, r }) == 0x3f,
{
}

/// The factors of a node: a product has those of both operands, a quotient those of its
/// right operand below, a minus sign adds a letter, and anything else is one factor.
pub proof fn lemma_factors(v: Seq<MathV>, i: int, t: TermV)
    requires
        is_tree(v),
        0 <= i < v.len(),
    ensures
        v[i] is Num || v[i] is Var ==> factors(v, i, t) == (TermV {
            num: t.num.push(tag(v[i])),
            den: t.den,
        }),
        v[i] is Neg ==> factors(v, i, t) == factors(
            v,
            v[i]->Neg_0,
            TermV { num: t.num.push(0x53), den: t.den },
        ),
        v[i] is Bin && v[i]->op == Op::Mul ==> factors(v, i, t) == factors(
            v,
            v[i]->r,
            factors(v, v[i]->l, t),
        ),
        v[i] is Bin && v[i]->op == Op::Div ==> ({
            let x = factors(v, v[i]->l, t);
            let y = factors(v, v[i]->r, TermV { num: x.den, den: x.num });
            factors(v, i, t).den == y.num && factors(v, i, t).num == y.den
        }),
        v[i] is Bin && v[i]->op != Op::Mul && v[i]->op != Op::Div ==> factors(v, i, t) == (TermV {
            num: t.num.push(tag(v[i])),
            den: t.den,
        }),
{
    assert(placed(v, i));
}

/// The summands of a node: those of both operands of a sum and of a difference, the right
/// ones of a difference with the other sign; anything else is one summand.
pub proof fn lemma_summands(v: Seq<MathV>, i: int, neg: bool)
    requires
        is_tree(v),
        0 <= i < v.len(),
    ensures
        v[i] is Bin && v[i]->op == Op::Add ==> summands(v, i, neg) == summands(v, v[i]->l, neg)
            + summands(v, v[i]->r, neg),
        v[i] is Bin && v[i]->op == Op::Sub ==> summands(v, i, neg) == summands(v, v[i]->l, neg)
            + summands(v, v[i]->r, !neg),
        !(v[i] is Bin) || (v[i]->op != Op::Add && v[i]->op != Op::Sub) ==> summands(v, i, neg)
            == seq![term(v, i, neg)],
{
    assert(placed(v, i));
}

/// Being alike goes both ways, and every term is like itself.
pub proof fn lemma_alike(a: TermV, b: TermV)
    ensures
        alike(a, a),
        alike(a, b) == alike(b, a),
        alike(a, b) ==> a.den == b.den && a.num.len() == b.num.len(),
{
    if alike(a, b) && a.num != b.num {
        assert(a.num.drop_last().len() == b.num.drop_last().len());
    }
}

/// Of terms that are alike and stand side by side one is kept: those that are kept are not
/// alike, one more is kept where it is not like the last, and nothing is kept of nothing.
pub proof fn lemma_distinct(v: Seq<TermV>, n: int)
    requires
        0 <= n <= v.len(),
    ensures
        distinct(v, n).len() <= n,
        n > 0 ==> distinct(v, n).len() > 0 && alike(v[n - 1], distinct(v, n).last()),
        forall|k: int|
            0 < k < distinct(v, n).len() ==> !alike(#[trigger] distinct(v, n)[k], distinct(v, n)[k - 1]),
        forall|k: int| 0 <= k < distinct(v, n).len() ==> v.contains(#[trigger] distinct(v, n)[k]),
    decreases n,
{
    if n > 0 {
        lemma_distinct(v, n - 1);
        lemma_alike(v[n - 1], v[n - 1]);
        let kept = distinct(v, n - 1);
        let d = distinct(v, n);
        assert forall|k: int| 0 < k < d.len() implies !alike(#[trigger] d[k], d[k - 1]) by {
            if k < kept.len() {
                assert(d[k] == kept[k] && d[k - 1] == kept[k - 1]);
            } else {
                assert(d[k - 1] == kept.last());
            }
        }
        assert forall|k: int| 0 <= k < d.len() implies v.contains(#[trigger] d[k]) by {
            if k < kept.len() {
                assert(d[k] == kept[k]);
            } else {
                assert(d[k] == v[n - 1]);
            }
        }
    }
}

/// The letters of the known family.
pub proof fn lemma_known_letters(c: u8)
    ensures
        known(c) <==> c == 'S' as u8 || c == 'V' as u8 || c == 'N' as u8 || c == 'x' as u8 || c
            == 'a' as u8 || c == 'o' as u8 || c == 'L' as u8 || c == 'R' as u8 || c == 'U' as u8 || c
            == 'm' as u8,
{
}

/// A checksum is of the known family where it has four summands or more, and every kind of
/// term has a variable among known factors and nothing but numbers below.
pub proof fn lemma_family(v: Seq<TermV>, raw: nat)
    ensures
        raw >= 4 && (forall|i: int|
            0 <= i < v.len() ==> (#[trigger] v[i]).num.contains(0x56) && (forall|j: int|
                0 <= j < v[i].num.len() ==> known(#[trigger] v[i].num[j])) && (forall|j: int|
                0 <= j < v[i].den.len() ==> #[trigger] v[i].den[j] == 0x4e)) ==> family(v, raw)
            == "duck-vqd-checksum-v1:sum_of_SVN_products"@,
        raw < 4 ==> family(v, raw) == "DRIFT:"@ + decimal(template(v, v.len() as int).len()),
        (exists|i: int| 0 <= i < v.len() && !(#[trigger] v[i]).num.contains(0x56)) ==> family(v, raw)
            == "DRIFT:"@ + decimal(template(v, v.len() as int).len()),
{
    if forall|i: int|
        0 <= i < v.len() ==> (#[trigger] v[i]).num.contains(0x56) && (forall|j: int|
            0 <= j < v[i].num.len() ==> known(#[trigger] v[i].num[j])) && (forall|j: int|
            0 <= j < v[i].den.len() ==> #[trigger] v[i].den[j] == 0x4e) {
        assert forall|i: int| 0 <= i < v.len() implies familiar(#[trigger] v[i]) by {
            assert(v[i].num.contains(0x56));
        }
    }
    if exists|i: int| 0 <= i < v.len() && !(#[trigger] v[i]).num.contains(0x56) {
        let i = choose|i: int| 0 <= i < v.len() && !(#[trigger] v[i]).num.contains(0x56);
        assert(!familiar(v[i]));
    }
}

/// A template writes its terms in their order, each with a plus sign behind it and a stroke
/// before what stands below.
pub proof fn lemma_template(v: Seq<TermV>, n: int)
    requires
        0 <= n < v.len(),
    ensures
        template(v, 0) == Seq::<u8>::empty(),
        v[n].den.len() == 0 ==> template(v, n + 1) == template(v, n) + v[n].num + seq!['+' as u8],
        v[n].den.len() > 0 ==> template(v, n + 1) == template(v, n) + v[n].num + seq!['/' as u8]
            + v[n].den + seq!['+' as u8],
{
    let t = v[n];
    if t.den.len() == 0 {
        assert(template(v, n) + term_text(t) =~= template(v, n) + t.num + seq!['+' as u8]);
    } else {
        assert(template(v, n) + term_text(t) =~= template(v, n) + t.num + seq!['/' as u8] + t.den
            + seq!['+' as u8]);
    }
}

/// Folding constants: a number is known, a variable is not, and an operation is known where
/// its operands are.
pub proof fn lemma_known_values(fl: FloatsV, node: MathV, x: u64, y: u64)
    ensures
        node is Num ==> fl.known(node, None, None) == Some(node->Num_0),
        node is Var ==> fl.known(node, Some(x), Some(y)) is None,
        node is Neg ==> fl.known(node, Some(x), None) == Some(negated(x)) && fl.known(
            node,
            None,
            Some(y),
        ) is None,
        node is Bin ==> fl.known(node, Some(x), None) is None && fl.known(node, None, Some(y)) is None,
        node is Bin && node->op != Op::Shl && node->op != Op::Ushr ==> fl.known(
            node,
            Some(x),
            Some(y),
        ) == Some(fl.apply(node->op, x, y)),
        node is Bin && node->op == Op::Shl ==> fl.known(node, Some(x), Some(y)) == Some(
            bits_of_int(((int32_of(x) as i64) << (uint32_of(y) % 32)) as int) as u64,
        ),
{
}

/// The words of what goes wrong with native code.
pub proof fn lemma_native_words(s: Seq<char>)
    ensures
        JitErrV::Isa(s).words() == "isa: "@ + s,
        JitErrV::Define(s).words() == "define: "@ + s,
        JitErrV::NotImplemented(s).words() == "не реализовано: "@ + s,
        JitErrV::Canary.words() == "канарейка: jit разошёлся с интерпретатором"@,
{
}

/// A term has its factors and its divisors in order, with a letter more for a sign.
pub proof fn lemma_term(v: Seq<MathV>, i: int)
    ensures
        ({
            let t = factors(v, i, TermV { num: seq![], den: seq![] });
            &&& term(v, i, false).num == ascending(t.num, byte_order())
            &&& term(v, i, true).num == ascending(t.num.push('S' as u8), byte_order())
            &&& term(v, i, false).den == ascending(t.den, byte_order())
            &&& term(v, i, true).den == ascending(t.den, byte_order())
        }),
{
}

} // verus!
