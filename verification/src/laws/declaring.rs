//! What a script declares: its tables, its lookup functions and other names for them, how
//! its table is turned, and which statements it runs.
use vstd::prelude::*;

#[allow(unused_imports)]
use crate::floats::FloatsV;
#[allow(unused_imports)]
use crate::jsnum::negated;
#[allow(unused_imports)]
use crate::pipeline::statics::{
    bare, called, called_body, calls_decoder, checksum_in, decoder, decoder_call, entry,
    first_checksum, first_init, first_try, indexed_by, last_turn, looks_up, loop_checksum,
    main_body, noted_body, noted_decl, noted_decls, noted_inner, place, shifted_lookup, table,
    tried, turn, with_entry, StaticsV,
};
#[allow(unused_imports)]
use crate::pipeline::syntax::{Decl, Expr, Func, Stmt};
#[allow(unused_imports)]
use crate::pipeline::walk::{exprs_in_stmt, exprs_in_stmt_all};

verus! {

/// Constants: a number stands for itself, a minus sign takes it to the other side of zero,
/// brackets change nothing, and of names, strings and calls there is no constant.
pub proof fn lemma_constants(fl: FloatsV, e: &Expr)
    ensures
        e is Num ==> fl.constant(e) == Some(e->Num_0),
        e is Paren ==> fl.constant(e) == fl.constant(&*e->Paren_0),
        e is Unary && e->Unary_op@ == "-"@ && fl.constant(&*e->Unary_arg) is Some ==> fl.constant(e)
            == Some(negated(fl.constant(&*e->Unary_arg)->0)),
        e is Unary && (e->Unary_op@ != "-"@ || fl.constant(&*e->Unary_arg) is None) ==> fl.constant(
            e,
        ) is None,
        e is Binary && fl.constant(&*e->Binary_l) is Some && fl.constant(&*e->Binary_r) is Some
            ==> fl.constant(e) == fl.arith(
            e->Binary_op@,
            fl.constant(&*e->Binary_l)->0,
            fl.constant(&*e->Binary_r)->0,
        ),
        e is Binary && (fl.constant(&*e->Binary_l) is None || fl.constant(&*e->Binary_r) is None)
            ==> fl.constant(e) is None,
        e is Ident || e is Str || e is Call || e is Member || e is Bool || e is Null ==> fl.constant(
            e,
        ) is None,
{
}

/// A table is an array of at least twenty items that are all strings; it holds them in
/// their order.
pub proof fn lemma_table(v: Seq<Option<Expr>>)
    ensures
        table(v) is Some <==> v.len() >= 20 && forall|i: int|
            0 <= i < v.len() ==> (#[trigger] v[i]) is Some && v[i]->0 is Str,
        table(v) matches Some(t) ==> t.len() == v.len() && forall|i: int|
            0 <= i < v.len() ==> (#[trigger] t[i]) == v[i]->0->Str_value@,
{
}

/// A list keeps what it first holds under a key; another key is not touched.
pub proof fn lemma_kept<T>(v: Seq<(Seq<char>, T)>, key: Seq<char>, x: T, other: Seq<char>)
    requires
        other != key,
    ensures
        entry(v, key) is Some ==> with_entry(v, key, x) == v,
        entry(v, key) is None ==> entry(with_entry(v, key, x), key) == Some(x),
        entry(with_entry(v, key, x), other) == entry(v, other),
{
    lemma_place_pushed(v, key, x, other, 0);
}

proof fn lemma_place_pushed<T>(
    v: Seq<(Seq<char>, T)>,
    key: Seq<char>,
    x: T,
    other: Seq<char>,
    i: int,
)
    requires
        0 <= i <= v.len(),
        other != key,
    ensures
        place(v, i, key) == v.len() ==> place(v.push((key, x)), i, key) == v.len(),
        place(v, i, other) < v.len() ==> place(v.push((key, x)), i, other) == place(v, i, other),
        place(v, i, other) >= v.len() ==> place(v.push((key, x)), i, other) == v.len() + 1,
        i <= place(v, i, key) <= v.len(),
        i <= place(v, i, other) <= v.len(),
    decreases v.len() - i,
{
    let w = v.push((key, x));
    if i < v.len() {
        lemma_place_pushed(v, key, x, other, i + 1);
        assert(w[i] == v[i]);
    } else {
        assert(w[i] == (key, x));
        reveal_with_fuel(place, 2);
    }
}

/// One declaration: an array of strings is a table under its name; a plain name, and a call
/// of one, makes the declared name another name for it; nothing else is noted.
pub proof fn lemma_declaration(st: StaticsV, d: Decl)
    requires
        d.name is Some,
        d.init is Some,
    ensures
        ({
            let name = d.name->0@;
            let e = d.init->0;
            let r = noted_decl(st, d);
            &&& e is Array && table(e->Array_0@) is Some ==> r == (StaticsV {
                providers: with_entry(st.providers, name, table(e->Array_0@)->0),
                ..st
            })
            &&& e is Array && table(e->Array_0@) is None ==> r == st
            &&& e is Ident ==> r == (StaticsV {
                aliases: with_entry(st.aliases, name, e->Ident_0@),
                ..st
            })
            &&& e is Call && (*e->Call_callee) is Ident ==> r == (StaticsV {
                aliases: with_entry(st.aliases, name, (*e->Call_callee)->Ident_0@),
                ..st
            })
            &&& e is Call && !((*e->Call_callee) is Ident) ==> r == st
            &&& !(e is Array) && !(e is Ident) && !(e is Call) ==> r == st
        }),
{
}

/// Declarations are noted in their order, and one without a name or a value adds nothing.
pub proof fn lemma_declarations(st: StaticsV, v: Seq<Decl>, n: int)
    requires
        0 <= n < v.len(),
    ensures
        noted_decls(st, v, 0) == st,
        noted_decls(st, v, n + 1) == noted_decl(noted_decls(st, v, n), v[n]),
        v[n].name is None || v[n].init is None ==> noted_decls(st, v, n + 1) == noted_decls(st, v, n),
{
}

/// A table that is declared inside a function goes by the function's name, and nothing else
/// that is declared there is noted.
pub proof fn lemma_inner_table(st: StaticsV, f: Seq<char>, v: Seq<Decl>, n: int)
    requires
        0 <= n < v.len(),
    ensures
        ({
            let was = noted_inner(st, f, v, n);
            let now = noted_inner(st, f, v, n + 1);
            let e = v[n].init->0;
            &&& v[n].init is Some && e is Array && table(e->Array_0@) is Some ==> now == (StaticsV {
                providers: with_entry(was.providers, f, table(e->Array_0@)->0),
                ..was
            })
            &&& v[n].init is None || !(e is Array) || table(e->Array_0@) is None ==> now == was
        }),
        noted_inner(st, f, v, 0) == st,
{
}

/// The assignments that shift a name by a number: the name on both sides of `=` with a
/// difference, a sum or an exclusive or, and the shorter forms of the same.
pub proof fn lemma_shift(fl: FloatsV, e: &Expr, x: Seq<char>, n: u64)
    requires
        e is Assign,
        e->Assign_target is Ident,
        e->Assign_target->Ident_0@ == x,
    ensures
        ({
            let op = e->Assign_op@;
            let v = *e->Assign_value;
            &&& (op == "-="@ || op == "+="@ || op == "^="@) && fl.constant(&v) == Some(n)
                ==> fl.shifted(e) == Some((x, n))
            &&& op == "="@ && v is Binary && (v->Binary_op@ == "-"@ || v->Binary_op@ == "+"@
                || v->Binary_op@ == "^"@) && (*v->Binary_l) is Ident && (*v->Binary_l)->Ident_0@ == x
                && fl.constant(&*v->Binary_r) == Some(n) ==> fl.shifted(e) == Some((x, n))
            &&& op == "="@ && !(v is Binary) ==> fl.shifted(e) is None
            &&& op == "="@ && v is Binary && v->Binary_op@ == "*"@ ==> fl.shifted(e) is None
            &&& op == "="@ && v is Binary && (*v->Binary_l) is Ident && (*v->Binary_l)->Ident_0@ != x
                ==> fl.shifted(e) is None
            &&& op == "*="@ ==> fl.shifted(e) is None
        }),
{
    reveal_strlit("=");
    reveal_strlit("-=");
    reveal_strlit("+=");
    reveal_strlit("^=");
    reveal_strlit("*=");
    reveal_strlit("*");
    reveal_strlit("-");
    reveal_strlit("+");
    reveal_strlit("^");
    assert("="@.len() == 1 && "-="@.len() == 2 && "+="@.len() == 2 && "^="@.len() == 2
        && "*="@.len() == 2);
    assert("*="@[0] == '*' && "-="@[0] == '-' && "+="@[0] == '+' && "^="@[0] == '^');
    assert("*"@[0] == '*' && "-"@[0] == '-' && "+"@[0] == '+' && "^"@[0] == '^');
}

/// A function is a lookup function where something in it is looked up by a name that it
/// shifts; what it takes off is the first of its shifts.
pub proof fn lemma_lookup_function(fl: FloatsV, st: StaticsV, f: Func)
    requires
        f.name is Some,
        f.body is Some,
    ensures
        ({
            let name = f.name->0@;
            let body = f.body->0@;
            let v = exprs_in_stmt_all(body, body.len() as int);
            let subs = fl.shifts(v, v.len() as int);
            let a = noted_body(st, name, body, body.len() as int);
            let looks = exists|i: int, j: int|
                0 <= i < subs.len() && 0 <= j < v.len() && (#[trigger] v[j]) is Index && (
                *v[j]->Index_obj) is Ident && (*v[j]->Index_idx) is Ident && (
                *v[j]->Index_idx)->Ident_0@ == (#[trigger] subs[i]).0;
            &&& looks ==> fl.noted_func(st, f) == (StaticsV {
                decoders: with_entry(a.decoders, name, subs[0].1),
                ..a
            })
            &&& !looks ==> fl.noted_func(st, f) == a
        }),
{
    let name = f.name->0@;
    let body = f.body->0@;
    let v = exprs_in_stmt_all(body, body.len() as int);
    let subs = fl.shifts(v, v.len() as int);
    let looks = exists|i: int, j: int|
        0 <= i < subs.len() && 0 <= j < v.len() && (#[trigger] v[j]) is Index && (
        *v[j]->Index_obj) is Ident && (*v[j]->Index_idx) is Ident && (*v[j]->Index_idx)->Ident_0@
            == (#[trigger] subs[i]).0;
    if looks {
        let (i, j) = choose|i: int, j: int|
            0 <= i < subs.len() && 0 <= j < v.len() && (#[trigger] v[j]) is Index && (
            *v[j]->Index_obj) is Ident && (*v[j]->Index_idx) is Ident && (
            *v[j]->Index_idx)->Ident_0@ == (#[trigger] subs[i]).0;
        assert(indexed_by(v[j]) == Some(subs[i].0));
        assert(looks_up(v, subs[i].0));
    }
    if shifted_lookup(v, subs) {
        let i = choose|i: int| 0 <= i < subs.len() && looks_up(v, #[trigger] subs[i].0);
        let j = choose|j: int| 0 <= j < v.len() && indexed_by(#[trigger] v[j]) == Some(subs[i].0);
        assert(v[j] is Index);
        assert(subs[i].0 == subs[i].0);
    }
}

/// The shifts of a function stand in the order in which they are written.
pub proof fn lemma_shifts(fl: FloatsV, v: Seq<&Expr>, n: int)
    requires
        0 <= n < v.len(),
    ensures
        fl.shifts(v, 0) == Seq::<(Seq<char>, u64)>::empty(),
        fl.shifted(v[n]) matches Some(p) ==> fl.shifts(v, n + 1) == fl.shifts(v, n).push(p),
        fl.shifted(v[n]) is None ==> fl.shifts(v, n + 1) == fl.shifts(v, n),
{
}

// ------------------------------------------------------------------------- the turning

/// A call by the name `name`: of a plain name, or of a property, written with a dot or as
/// a string.
pub open spec fn goes_by(e: Expr, name: Seq<char>) -> bool {
    ||| e is Ident && e->Ident_0@ == name
    ||| e is Member && e->Member_prop@ == name
    ||| e is Index && (*e->Index_idx) is Str && (*e->Index_idx)->Str_value@ == name
}

/// `a.push(b.shift())` turns to the left and `a.unshift(b.pop())` to the right; the other
/// two pairs turn nothing.
pub proof fn lemma_turn(e: &Expr, f: Expr, inner: Expr, g: Expr)
    requires
        e is Call,
        *e->Call_callee == f,
        e->Call_args@.len() > 0,
        e->Call_args@[0] == Some(inner),
        inner is Call,
        inner->Call_args@.len() == 0,
        *inner->Call_callee == g,
    ensures
        goes_by(f, "push"@) && goes_by(g, "shift"@) ==> turn(e) == Some(true),
        goes_by(f, "unshift"@) && goes_by(g, "pop"@) ==> turn(e) == Some(false),
        goes_by(f, "push"@) && goes_by(g, "pop"@) ==> turn(e) is None,
        goes_by(f, "unshift"@) && goes_by(g, "shift"@) ==> turn(e) is None,
{
    reveal_strlit("push");
    reveal_strlit("pop");
    reveal_strlit("shift");
    reveal_strlit("unshift");
    assert("push"@.len() == 4 && "pop"@.len() == 3 && "shift"@.len() == 5 && "unshift"@.len() == 7);
    lemma_called(f, "push"@);
    lemma_called(f, "unshift"@);
    lemma_called(g, "shift"@);
    lemma_called(g, "pop"@);
    assert(bare(&inner) == &inner);
}

proof fn lemma_called(e: Expr, name: Seq<char>)
    ensures
        goes_by(e, name) ==> called(&e) == Some(name),
{
    if goes_by(e, name) && e is Index {
        assert(bare(&*e->Index_idx) == &*e->Index_idx);
    }
}

/// The direction is that of the last turn.
pub proof fn lemma_last_turn(v: Seq<&Expr>, n: int)
    requires
        0 <= n <= v.len(),
    ensures
        last_turn(v, n) matches Some(b) ==> exists|k: int|
            0 <= k < n && turn(#[trigger] v[k]) == Some(b) && forall|j: int|
                k < j < n ==> turn(#[trigger] v[j]) is None,
        last_turn(v, n) is None ==> forall|j: int| 0 <= j < n ==> turn(#[trigger] v[j]) is None,
    decreases n,
{
    if n > 0 {
        if turn(v[n - 1]) is None {
            lemma_last_turn(v, n - 1);
        } else {
            assert(v[n - 1] == v[n - 1]);
        }
    }
}

/// The statement that turns the table: a function of two parameters, called on the spot
/// with the target as its second argument. It has the direction of its last turn and the
/// checksum of its loop.
pub proof fn lemma_rotator(
    fl: FloatsV,
    st: StaticsV,
    s: &Stmt,
    e: Expr,
    f: Func,
    body: Seq<Stmt>,
    target: u64,
    left: bool,
    x: &Expr,
)
    requires
        *s == Stmt::Value(e),
        e is Call,
        (*e->Call_callee) is Func,
        (*e->Call_callee)->Func_0 == f,
        f.body is Some,
        f.body->0@ == body,
        e->Call_args@.len() >= 2,
        e->Call_args@[1] is Some,
        fl.constant(&e->Call_args@[1]->0) == Some(target),
        last_turn(exprs_in_stmt_all(body, body.len() as int), exprs_in_stmt_all(body, body.len() as int).len() as int)
            == Some(left),
        loop_checksum(st, body, 0) == Some(x),
    ensures
        f.params@.len() == 2 ==> fl.rotator(st, s) == Some((target, left, x)),
        f.params@.len() != 2 ==> fl.rotator(st, s) is None,
{
    assert(bare(&e) == &e);
    assert(bare(&*e->Call_callee) == &*e->Call_callee);
}

/// It is the first such statement that counts.
pub proof fn lemma_first_rotator(fl: FloatsV, st: StaticsV, v: Seq<&Stmt>, i: int)
    requires
        0 <= i <= v.len(),
    ensures
        fl.first_rotator(st, v, i) is Some ==> exists|k: int|
            i <= k < v.len() && fl.rotator(st, #[trigger] v[k]) == fl.first_rotator(st, v, i)
                && forall|j: int| i <= j < k ==> fl.rotator(st, #[trigger] v[j]) is None,
        fl.first_rotator(st, v, i) is None ==> forall|j: int|
            i <= j < v.len() ==> fl.rotator(st, #[trigger] v[j]) is None,
    decreases v.len() - i,
{
    if i < v.len() {
        if fl.rotator(st, v[i]) is None {
            lemma_first_rotator(fl, st, v, i + 1);
        } else {
            assert(v[i] == v[i]);
        }
    }
}

/// A checksum is the first value of a declaration that calls a lookup function, in the
/// first such statement of a block.
pub proof fn lemma_checksum(st: StaticsV, v: Seq<Stmt>, i: int)
    requires
        0 <= i <= v.len(),
    ensures
        first_checksum(st, v, i) is Some ==> exists|k: int|
            i <= k < v.len() && checksum_in(st, &#[trigger] v[k]) == first_checksum(st, v, i)
                && v[k] is Vars && calls_decoder(st, exprs_in_stmt(&v[k])) && forall|j: int|
                i <= j < k ==> checksum_in(st, &#[trigger] v[j]) is None,
        first_checksum(st, v, i) is None ==> forall|j: int|
            i <= j < v.len() ==> checksum_in(st, &#[trigger] v[j]) is None,
    decreases v.len() - i,
{
    if i < v.len() {
        if checksum_in(st, &v[i]) is None {
            lemma_checksum(st, v, i + 1);
        } else {
            assert(v[i] == v[i]);
        }
    }
}

/// A loop's checksum stands in what the loop tries: in its body, where that is a `try`, or
/// in the first `try` of its block. The first loop that has one counts.
pub proof fn lemma_loop_checksum(st: StaticsV, v: Seq<Stmt>, i: int)
    requires
        0 <= i < v.len(),
    ensures
        v[i] is While && (*v[i]->While_body) is Try ==> tried(&v[i]) == Some(
            (*v[i]->While_body)->Try_block@,
        ),
        v[i] is While && (*v[i]->While_body) is Block ==> tried(&v[i]) == first_try(
            (*v[i]->While_body)->Block_0@,
            0,
        ),
        !(v[i] is While) ==> tried(&v[i]) is None,
        tried(&v[i]) is Some && first_checksum(st, tried(&v[i])->0, 0) is Some ==> loop_checksum(
            st,
            v,
            i,
        ) == first_checksum(st, tried(&v[i])->0, 0),
        tried(&v[i]) is None || first_checksum(st, tried(&v[i])->0, 0) is None ==> loop_checksum(
            st,
            v,
            i,
        ) == loop_checksum(st, v, i + 1),
        v[i] is Try ==> first_try(v, i) == Some(v[i]->Try_block@),
        !(v[i] is Try) ==> first_try(v, i) == first_try(v, i + 1),
{
}

/// A call of a lookup function is a call of a plain name that stands for one.
pub proof fn lemma_decoder_call(st: StaticsV, e: &Expr)
    ensures
        e is Call && (*e->Call_callee) is Ident ==> decoder_call(st, e) == decoder(
            st,
            (*e->Call_callee)->Ident_0@,
        ),
        !(e is Call) || !((*e->Call_callee) is Ident) ==> decoder_call(st, e) is None,
{
}

// -------------------------------------------------------------------------- the main body

/// A function literal that is called on the spot.
pub open spec fn calls_literal(s: Stmt) -> bool {
    s is Value && s->Value_0 is Call && ((*s->Value_0->Call_callee) is Func || (
    *s->Value_0->Call_callee) is Arrow)
}

/// What a script runs is the body of the first function literal that it calls on the spot;
/// a script that calls none runs as it stands.
pub proof fn lemma_main_body(v: Seq<Stmt>, k: int, b: Seq<Stmt>)
    requires
        0 <= k < v.len(),
        forall|j: int| 0 <= j < k ==> called_body(&#[trigger] v[j]) is None,
        calls_literal(v[k]),
    ensures
        ({
            let f = *v[k]->Value_0->Call_callee;
            &&& f is Func && f->Func_0.body is Some && f->Func_0.body->0@ == b ==> main_body(v, 0)
                == b
            &&& f is Arrow && f->Arrow_body is Block && f->Arrow_body->Block_0@ == b ==> main_body(
                v,
                0,
            ) == b
        }),
{
    let e = v[k]->Value_0;
    assert(bare(&e) == &e);
    assert(bare(&*e->Call_callee) == &*e->Call_callee);
    lemma_main_from(v, 0, k);
}

proof fn lemma_main_from(v: Seq<Stmt>, i: int, k: int)
    requires
        0 <= i <= k <= v.len(),
        forall|j: int| 0 <= j < k ==> called_body(&#[trigger] v[j]) is None,
    ensures
        main_body(v, i) == main_body(v, k),
    decreases k - i,
{
    if i < k {
        assert(called_body(&v[i]) is None);
        lemma_main_from(v, i + 1, k);
    }
}

/// A script that calls no function literal on the spot runs as it stands.
pub proof fn lemma_no_main_body(v: Seq<Stmt>)
    requires
        forall|j: int| 0 <= j < v.len() ==> called_body(&#[trigger] v[j]) is None,
    ensures
        main_body(v, 0) == v,
{
    lemma_main_from(v, 0, v.len() as int);
}

/// The value of a declaration that counts is the first that there is.
pub proof fn lemma_first_value(v: Seq<Decl>, i: int)
    requires
        0 <= i < v.len(),
    ensures
        v[i].init is Some ==> first_init(v, i) == Some(&v[i].init->0),
        v[i].init is None ==> first_init(v, i) == first_init(v, i + 1),
        first_init(v, v.len() as int) is None,
{
}

} // verus!
