//! Folding a script keeps what it does: known values take the place of names, lookups
//! give their strings, and of a decided branch the one that runs stays.
use vstd::prelude::*;

#[allow(unused_imports)]
use crate::floats::FloatsV;
#[allow(unused_imports)]
use crate::jsnum::{bits_of_int, bits_of_nat, int64_of, lemma_whole_order, ONE};
#[allow(unused_imports)]
use crate::pipeline::fold::truth;
#[allow(unused_imports)]
use crate::pipeline::propagate::{assign_op, builtin, known, plain_params, times, Scopes, World};
#[allow(unused_imports)]
use crate::pipeline::statics::{decoder, entry, place, resolved, StaticsV};
#[allow(unused_imports)]
use crate::pipeline::sx::SxV;
#[allow(unused_imports)]
use crate::pipeline::syntax::{Expr, Prop, Stmt};
#[allow(unused_imports)]
use crate::text::utf16;

verus! {

/// `e`, folded where `d` and `s` hold, is `x`, and leaves `t` known.
pub open spec fn folds(w: World, e: &Expr, d: int, s: Scopes, x: SxV, t: Scopes) -> bool {
    w.expr(e, d, s) == Ok::<(SxV, Scopes), Seq<char>>((x, t))
}

/// A statement comes to nothing, and leaves `t` known.
pub open spec fn drops(w: World, e: &Stmt, d: int, s: Scopes, t: Scopes) -> bool {
    w.stmt(e, d, s) == Ok::<(Option<SxV>, Scopes), Seq<char>>((None, t))
}

/// A statement comes to `x`, and leaves `t` known.
pub open spec fn becomes(w: World, e: &Stmt, d: int, s: Scopes, x: SxV, t: Scopes) -> bool {
    w.stmt(e, d, s) == Ok::<(Option<SxV>, Scopes), Seq<char>>((Some(x), t))
}

// -------------------------------------------------------------------------- expressions

/// Literals stand for themselves, and brackets around an expression for nothing.
pub proof fn lemma_literals(w: World, e: &Expr, d: int, s: Scopes)
    requires
        d <= 64,
    ensures
        e is Num ==> folds(w, e, d, s, SxV::Num(e->Num_0), s),
        e is Str ==> folds(w, e, d, s, SxV::Str(e->Str_value@), s),
        e is Bool ==> folds(w, e, d, s, SxV::Bool(e->Bool_0), s),
        e is Null ==> folds(w, e, d, s, SxV::Null, s),
        e is This ==> folds(w, e, d, s, SxV::Ref("this"@), s),
        e is Ident && e->Ident_0@ == "undefined"@ ==> folds(w, e, d, s, SxV::Undef, s),
        e is Paren ==> w.expr(e, d, s) == w.expr(&*e->Paren_0, d, s),
{
}

/// Of a conditional whose condition is known, the branch that it picks is left; of one
/// whose condition is not, all three parts in their places.
pub proof fn lemma_conditional(
    w: World,
    e: &Expr,
    d: int,
    s: Scopes,
    t: SxV,
    s1: Scopes,
    yes: SxV,
    s2: Scopes,
    no: SxV,
    s3: Scopes,
)
    requires
        d <= 64,
        e is Cond,
        folds(w, &*e->Cond_test, d + 1, s, t, s1),
        folds(w, &*e->Cond_yes, d + 1, s1, yes, s2),
        folds(w, &*e->Cond_no, d + 1, s2, no, s3),
    ensures
        truth(t) == Some(true) ==> folds(w, e, d, s, yes, s3),
        truth(t) == Some(false) ==> folds(w, e, d, s, no, s3),
        truth(t) is None ==> folds(
            w,
            e,
            d,
            s,
            SxV::Cond { t: Box::new(t), c: Box::new(yes), a: Box::new(no) },
            s3,
        ),
{
}

/// `a && b` is `b` where `a` is true and `a` where it is false; `a || b` is the other way
/// round.
pub proof fn lemma_logical(
    w: World,
    e: &Expr,
    d: int,
    s: Scopes,
    a: SxV,
    s1: Scopes,
    b: SxV,
    s2: Scopes,
)
    requires
        d <= 64,
        e is Logical,
        folds(w, &*e->Logical_l, d + 1, s, a, s1),
        folds(w, &*e->Logical_r, d + 1, s1, b, s2),
    ensures
        e->Logical_op@ == "&&"@ && truth(a) == Some(true) ==> folds(w, e, d, s, b, s2),
        e->Logical_op@ == "&&"@ && truth(a) == Some(false) ==> folds(w, e, d, s, a, s2),
        e->Logical_op@ == "||"@ && truth(a) == Some(true) ==> folds(w, e, d, s, a, s2),
        e->Logical_op@ == "||"@ && truth(a) == Some(false) ==> folds(w, e, d, s, b, s2),
        truth(a) is None || (e->Logical_op@ != "&&"@ && e->Logical_op@ != "||"@) ==> folds(
            w,
            e,
            d,
            s,
            SxV::Log { op: e->Logical_op@, l: Box::new(a), r: Box::new(b) },
            s2,
        ),
{
    reveal_strlit("&&");
    reveal_strlit("||");
    assert("&&"@[0] != "||"@[0]);
}

/// An operation is folded on its folded operands, the left one first.
pub proof fn lemma_operations(
    w: World,
    e: &Expr,
    d: int,
    s: Scopes,
    a: SxV,
    s1: Scopes,
    b: SxV,
    s2: Scopes,
)
    requires
        d <= 64,
    ensures
        e is Binary && folds(w, &*e->Binary_l, d + 1, s, a, s1) && folds(
            w,
            &*e->Binary_r,
            d + 1,
            s1,
            b,
            s2,
        ) ==> folds(w, e, d, s, w.fl.binary(e->Binary_op@, a, b), s2),
        e is Unary && folds(w, &*e->Unary_arg, d + 1, s, a, s1) ==> folds(
            w,
            e,
            d,
            s,
            w.fl.unary(e->Unary_op@, a),
            s1,
        ),
        e is Await && folds(w, &*e->Await_arg, d + 1, s, a, s1) ==> folds(w, e, d, s, a, s1),
        e is Member && folds(w, &*e->Member_obj, d + 1, s, a, s1) ==> folds(
            w,
            e,
            d,
            s,
            SxV::Member { obj: Box::new(a), prop: e->Member_prop@ },
            s1,
        ),
        e is Index && folds(w, &*e->Index_obj, d + 1, s, a, s1) && folds(
            w,
            &*e->Index_idx,
            d + 1,
            s1,
            b,
            s2,
        ) ==> folds(
            w,
            e,
            d,
            s,
            if b is Str {
                SxV::Member { obj: Box::new(a), prop: b->Str_0 }
            } else {
                SxV::Index { obj: Box::new(a), idx: Box::new(b) }
            },
            s2,
        ),
{
}

/// A lookup gives the string that stands in the turned table at the index less what the
/// lookup function takes off, counted round the table.
pub proof fn lemma_lookup(w: World, e: &Expr, d: int, s: Scopes, n: u64, f: Seq<char>, delta: u64)
    requires
        d <= 64,
        e is Call,
        *e->Call_callee is Ident,
        decoder(w.st, e->Call_callee->Ident_0@) == Some(f),
        entry(w.st.decoders, f) == Some(delta),
        e->Call_args@.len() > 0,
        e->Call_args@[0] is Some,
        e->Call_args@[0]->0 is Num,
        e->Call_args@[0]->0->Num_0 == n,
        w.strings.len() > 0,
        i64::MIN <= int64_of(n) - int64_of(delta) <= i64::MAX,
    ensures
        folds(
            w,
            e,
            d,
            s,
            SxV::Str(
                w.strings[(int64_of(n) - int64_of(delta)) % (w.strings.len() as int)],
            ),
            s,
        ),
{
    assert(w.fl.constant(&e->Call_args@[0]->0) == Some(n));
}

/// A name that stands for a lookup function is one, and so is a name that stands for such
/// a name.
pub proof fn lemma_aliases(st: StaticsV, name: Seq<char>, other: Seq<char>, n: nat)
    requires
        n > 0,
    ensures
        entry(st.decoders, name) is Some ==> resolved(st, name, n) == Some(name),
        entry(st.decoders, name) is None && entry(st.aliases, name) == Some(other) ==> resolved(
            st,
            name,
            n,
        ) == resolved(st, other, (n - 1) as nat),
        entry(st.decoders, name) is None && entry(st.aliases, name) is None ==> resolved(st, name, n) is None,
{
}

proof fn lemma_place<T>(v: Seq<(Seq<char>, T)>, i: int, key: Seq<char>)
    requires
        0 <= i,
    ensures
        i <= v.len() ==> i <= place(v, i, key) <= v.len(),
        i <= v.len() ==> forall|k: int| i <= k < place(v, i, key) ==> (#[trigger] v[k]).0 != key,
        i <= v.len() && place(v, i, key) < v.len() ==> v[place(v, i, key)].0 == key,
    decreases v.len() - i,
{
    if i < v.len() && v[i].0 != key {
        lemma_place(v, i + 1, key);
    }
}

/// What is held under a key is what stands first under it.
pub proof fn lemma_entry<T>(v: Seq<(Seq<char>, T)>, key: Seq<char>)
    ensures
        entry(v, key) matches Some(x) ==> exists|i: int|
            0 <= i < v.len() && (#[trigger] v[i]) == (key, x) && forall|k: int|
                0 <= k < i ==> (#[trigger] v[k]).0 != key,
        entry(v, key) is None ==> forall|k: int| 0 <= k < v.len() ==> (#[trigger] v[k]).0 != key,
{
    lemma_place(v, 0, key);
    let i = place(v, 0, key);
    if i < v.len() {
        assert(v[i] == (key, v[i].1));
    }
}

// -------------------------------------------------------------------------------- names

proof fn lemma_known(scopes: Seq<Map<Seq<char>, SxV>>, k: int, name: Seq<char>)
    requires
        0 <= k <= scopes.len(),
    ensures
        known(scopes, k, name) matches Some(v) ==> exists|i: int|
            0 <= i < k && (#[trigger] scopes[i]).contains_key(name) && scopes[i][name] == v
                && forall|j: int| i < j < k ==> !(#[trigger] scopes[j]).contains_key(name),
        known(scopes, k, name) is None ==> forall|j: int|
            0 <= j < k ==> !(#[trigger] scopes[j]).contains_key(name),
    decreases k,
{
    if k > 0 {
        if scopes[k - 1].contains_key(name) {
            assert(scopes[k - 1][name] == scopes[k - 1][name]);
        } else {
            lemma_known(scopes, k - 1, name);
        }
    }
}

/// What is known of a name is what the innermost scope says that knows it.
pub proof fn lemma_innermost(s: Scopes, name: Seq<char>)
    ensures
        s.find(name) matches Some(v) ==> exists|i: int|
            0 <= i < s.scopes.len() && (#[trigger] s.scopes[i]).contains_key(name)
                && s.scopes[i][name] == v && forall|j: int|
                i < j < s.scopes.len() ==> !(#[trigger] s.scopes[j]).contains_key(name),
        s.find(name) is None ==> forall|j: int|
            0 <= j < s.scopes.len() ==> !(#[trigger] s.scopes[j]).contains_key(name),
{
    lemma_known(s.scopes, s.scopes.len() as int, name);
}

/// Binding a name in a scope makes it known there, over what scopes around say, and
/// leaving the scope makes it unknown again; other names stay as they are.
pub proof fn lemma_binding(s: Scopes, name: Seq<char>, other: Seq<char>, v: SxV)
    requires
        s.scopes.len() > 0,
        other != name,
    ensures
        s.bound(name, v).find(name) == Some(v),
        s.bound(name, v).find(other) == s.find(other),
        s.entered().find(name) == s.find(name),
        s.entered().left().scopes == s.scopes,
        s.entered().bound(name, v).left().scopes == s.scopes,
        s.bound(name, v).log == s.log,
        s.written(name).find(other) == s.find(other),
        s.written(name).find(name) == s.find(name),
{
    let b = s.bound(name, v);
    let n = s.scopes.len() as int;
    assert(b.scopes[n - 1] == s.scopes[n - 1].insert(name, v));
    lemma_known_prefix(b.scopes, s.scopes, n - 1, other);
    let e = s.entered();
    assert(e.scopes[n] == Map::<Seq<char>, SxV>::empty());
    lemma_known_prefix(e.scopes, s.scopes, n, name);
    assert(e.left().scopes =~= s.scopes);
    assert(e.bound(name, v).left().scopes =~= s.scopes);
}

proof fn lemma_known_prefix(
    a: Seq<Map<Seq<char>, SxV>>,
    b: Seq<Map<Seq<char>, SxV>>,
    k: int,
    name: Seq<char>,
)
    requires
        0 <= k <= a.len(),
        k <= b.len(),
        forall|i: int| 0 <= i < k ==> #[trigger] a[i] == b[i],
    ensures
        known(a, k, name) == known(b, k, name),
    decreases k,
{
    if k > 0 {
        assert(a[k - 1] == b[k - 1]);
        lemma_known_prefix(a, b, k - 1, name);
    }
}

/// How often a name has been written is counted write by write.
pub proof fn lemma_writes(log: Seq<Seq<char>>, name: Seq<char>, other: Seq<char>)
    requires
        other != name,
    ensures
        times(Seq::<Seq<char>>::empty(), name) == 0,
        times(log.push(name), name) == times(log, name) + 1,
        times(log.push(other), name) == times(log, name),
{
    assert(log.push(name).drop_last() =~= log);
    assert(log.push(other).drop_last() =~= log);
}

/// What stands for a name: its value, where that is a literal, an access or a call and the
/// name has been written at most once. A name that is not known, or that has been written
/// again, or that holds a function or an object, stands for itself.
pub proof fn lemma_names(s: Scopes, name: Seq<char>, v: SxV)
    ensures
        times(s.log, name) > 1 ==> s.subst(name, name, 16) == SxV::Ref(name),
        s.find(name) is None ==> s.subst(name, name, 16) == SxV::Ref(name),
        times(s.log, name) <= 1 && s.find(name) == Some(v) && (v is Num || v is Str || v is Bool
            || v is Null || v is Undef || v is Member || v is Index || v is Call || v is New)
            ==> s.subst(name, name, 16) == v,
        times(s.log, name) <= 1 && s.find(name) == Some(v) && (v is Fn || v is Obj || v is Arr
            || v is Class || v is Bin) ==> s.subst(name, name, 16) == SxV::Ref(name),
        s.find(name) == Some(SxV::Ref(name)) ==> s.subst(name, name, 16) == SxV::Ref(name),
{
}

/// A name that stands for another one that is not known gives that other one.
pub proof fn lemma_other_name(s: Scopes, name: Seq<char>, other: Seq<char>, v: SxV)
    requires
        name != other,
        times(s.log, name) <= 1,
        s.find(name) == Some(SxV::Ref(other)),
    ensures
        s.find(other) is None ==> s.subst(name, name, 16) == SxV::Ref(other),
        s.find(other) == Some(v) && times(s.log, other) <= 1 && (v is Num || v is Str) ==> s.subst(
            name,
            name,
            16,
        ) == v,
        s.find(other) is Some && times(s.log, other) > 1 ==> s.subst(name, name, 16) == SxV::Ref(other),
{
    reveal_with_fuel(Scopes::subst, 3);
}

/// An assignment to a name writes it and says what it holds; its operator stays where it
/// is one of the plain ones.
pub proof fn lemma_assignment(w: World, e: &Expr, d: int, s: Scopes, v: SxV, s1: Scopes)
    requires
        d <= 64,
        e is Assign,
        e->Assign_target is Ident,
        folds(w, &*e->Assign_value, d + 1, s, v, s1),
    ensures
        folds(
            w,
            e,
            d,
            s,
            SxV::Assign {
                target: Box::new(SxV::Ref(e->Assign_target->Ident_0@)),
                op: assign_op(e->Assign_op@),
                value: Box::new(v),
            },
            s1.written(e->Assign_target->Ident_0@).bound(e->Assign_target->Ident_0@, v),
        ),
        e->Assign_op@ == "="@ ==> assign_op(e->Assign_op@) == "="@,
        e->Assign_op@ == "+="@ ==> assign_op(e->Assign_op@) == "+="@,
        e->Assign_op@ == "-="@ ==> assign_op(e->Assign_op@) == "-="@,
        e->Assign_op@ == "*="@ ==> assign_op(e->Assign_op@) == "*="@,
        e->Assign_op@ == "/="@ ==> assign_op(e->Assign_op@) == "/="@,
        e->Assign_op@ == "%="@ ==> assign_op(e->Assign_op@) == "%="@,
        e->Assign_op@ == "^="@ ==> assign_op(e->Assign_op@) == "^="@,
        e->Assign_op@ == "&="@ ==> assign_op(e->Assign_op@) == "&="@,
        e->Assign_op@ == "|="@ ==> assign_op(e->Assign_op@) == "|="@,
{
    let name = e->Assign_target->Ident_0@;
    assert(w.target(&e->Assign_target, v, d + 1, s1) == Ok::<(SxV, Scopes), Seq<char>>(
        (SxV::Ref(name), s1.written(name).bound(name, v)),
    ));
}

/// Counting a name up or down writes it.
pub proof fn lemma_update(w: World, e: &Expr, d: int, s: Scopes)
    requires
        d <= 64,
        e is Update,
    ensures
        e->Update_target is Some ==> folds(
            w,
            e,
            d,
            s,
            SxV::Assign {
                target: Box::new(SxV::Ref(e->Update_target->0@)),
                op: e->Update_op@,
                value: Box::new(SxV::Num(bits_of_nat(1) as u64)),
            },
            s.written(e->Update_target->0@),
        ),
        e->Update_target is None ==> w.expr(e, d, s) is Err,
{
    lemma_one();
}

/// The number one.
pub proof fn lemma_one()
    ensures
        bits_of_nat(1) as u64 == ONE,
{
    vstd::arithmetic::power2::lemma2_to64();
    vstd::arithmetic::power2::lemma2_to64_rest();
    assert(crate::jsnum::top_bit(1) == 0);
}

// ---------------------------------------------------------------------------- statements

/// Of an `if` whose condition is known only the branch that runs is left, and nothing
/// where there is none; of another both branches stay in their places.
pub proof fn lemma_branches(
    w: World,
    e: &Stmt,
    d: int,
    s: Scopes,
    t: SxV,
    s1: Scopes,
    yes: Seq<SxV>,
    s2: Scopes,
    no: Seq<SxV>,
    s3: Scopes,
)
    requires
        d <= 64,
        e is If,
        folds(w, &e->If_test, d + 1, s, t, s1),
    ensures
        truth(t) == Some(true) && w.one(&*e->If_yes, d + 1, s1) == Ok::<
            (Seq<SxV>, Scopes),
            Seq<char>,
        >((yes, s2)) ==> becomes(w, e, d, s, SxV::Sequence(yes), s2),
        truth(t) == Some(false) && e->If_no is None ==> drops(w, e, d, s, s1),
        truth(t) == Some(false) && e->If_no is Some && w.one(&*e->If_no->0, d + 1, s1) == Ok::<
            (Seq<SxV>, Scopes),
            Seq<char>,
        >((no, s3)) ==> becomes(w, e, d, s, SxV::Sequence(no), s3),
        truth(t) is None && e->If_no is Some && w.one(&*e->If_yes, d + 1, s1) == Ok::<
            (Seq<SxV>, Scopes),
            Seq<char>,
        >((yes, s2)) && w.one(&*e->If_no->0, d + 1, s2) == Ok::<(Seq<SxV>, Scopes), Seq<char>>(
            (no, s3),
        ) ==> becomes(w, e, d, s, SxV::If { t: Box::new(t), c: yes, a: no }, s3),
        truth(t) is None && e->If_no is None && w.one(&*e->If_yes, d + 1, s1) == Ok::<
            (Seq<SxV>, Scopes),
            Seq<char>,
        >((yes, s2)) ==> becomes(w, e, d, s, SxV::If { t: Box::new(t), c: yes, a: seq![] }, s2),
{
}

/// Statements are folded in their order, and a statement that comes to nothing leaves
/// nothing behind.
pub proof fn lemma_order(
    w: World,
    v: Seq<Stmt>,
    n: int,
    d: int,
    s: Scopes,
    out: Seq<SxV>,
    s1: Scopes,
    x: SxV,
    s2: Scopes,
)
    requires
        0 <= n < v.len(),
        w.stmts(v, n, d, s) == Ok::<(Seq<SxV>, Scopes), Seq<char>>((out, s1)),
    ensures
        w.stmts(v, 0, d, s) == Ok::<(Seq<SxV>, Scopes), Seq<char>>((seq![], s)),
        becomes(w, &v[n], d, s1, x, s2) ==> w.stmts(v, n + 1, d, s) == Ok::<
            (Seq<SxV>, Scopes),
            Seq<char>,
        >((out.push(x), s2)),
        drops(w, &v[n], d, s1, s2) ==> w.stmts(v, n + 1, d, s) == Ok::<
            (Seq<SxV>, Scopes),
            Seq<char>,
        >((out, s2)),
{
}

/// The plain statements: an expression comes to itself, a `return` and a `throw` hold
/// their values, a block is a scope of its own, and a loop keeps its condition and its
/// body.
pub proof fn lemma_statements(
    w: World,
    e: &Stmt,
    d: int,
    s: Scopes,
    x: SxV,
    s1: Scopes,
    body: Seq<SxV>,
    s2: Scopes,
)
    requires
        d <= 64,
    ensures
        e is Value && folds(w, &e->Value_0, d + 1, s, x, s1) ==> becomes(w, e, d, s, x, s1),
        e is Throw && folds(w, &e->Throw_0, d + 1, s, x, s1) ==> becomes(
            w,
            e,
            d,
            s,
            SxV::Throw(Box::new(x)),
            s1,
        ),
        e is Return && e->Return_0 is None ==> becomes(w, e, d, s, SxV::Ret(None), s),
        e is Return && e->Return_0 is Some && folds(w, &e->Return_0->0, d + 1, s, x, s1)
            ==> becomes(w, e, d, s, SxV::Ret(Some(Box::new(x))), s1),
        e is Break ==> becomes(w, e, d, s, SxV::Break, s),
        e is Block && w.stmts(e->Block_0@, e->Block_0@.len() as int, d + 1, s.entered()) == Ok::<
            (Seq<SxV>, Scopes),
            Seq<char>,
        >((body, s2)) ==> becomes(w, e, d, s, SxV::Block(body), s2.left()),
        e is While && folds(w, &e->While_test, d + 1, s, x, s1) && w.one(
            &*e->While_body,
            d + 1,
            s1,
        ) == Ok::<(Seq<SxV>, Scopes), Seq<char>>((body, s2)) ==> becomes(
            w,
            e,
            d,
            s,
            SxV::While { t: Box::new(x), body },
            s2,
        ),
{
}

/// A declaration says what its name holds from there on: the value, or `undefined` where
/// there is none.
pub proof fn lemma_declaration(w: World, e: &Stmt, d: int, s: Scopes, x: SxV, s1: Scopes)
    requires
        d <= 64,
        e is Vars,
        e->Vars_0@.len() == 1,
        e->Vars_0@[0].name is Some,
    ensures
        e->Vars_0@[0].init is Some && folds(w, &e->Vars_0@[0].init->0, d + 1, s, x, s1) ==> becomes(
            w,
            e,
            d,
            s,
            SxV::Sequence(
                seq![SxV::Var { name: e->Vars_0@[0].name->0@, value: Box::new(x) }],
            ),
            s1.written(e->Vars_0@[0].name->0@).bound(e->Vars_0@[0].name->0@, x),
        ),
        e->Vars_0@[0].init is None ==> becomes(
            w,
            e,
            d,
            s,
            SxV::Sequence(
                seq![SxV::Var { name: e->Vars_0@[0].name->0@, value: Box::new(SxV::Undef) }],
            ),
            s.written(e->Vars_0@[0].name->0@).bound(e->Vars_0@[0].name->0@, SxV::Undef),
        ),
{
    let v = e->Vars_0@;
    let pattern = "деструктуризация вне модели"@;
    assert(w.decls(v, 0, d + 1, s, pattern) == Ok::<(Seq<SxV>, Scopes), Seq<char>>((seq![], s)));
    let name = v[0].name->0@;
    assert(Seq::<SxV>::empty().push(SxV::Var { name, value: Box::new(x) }) =~= seq![
        SxV::Var { name, value: Box::new(x) },
    ]);
    assert(Seq::<SxV>::empty().push(SxV::Var { name, value: Box::new(SxV::Undef) }) =~= seq![
        SxV::Var { name, value: Box::new(SxV::Undef) },
    ]);
}

// --------------------------------------------------------------------------- known calls

/// The calls that strings and arrays answer by themselves: `charCodeAt` the unit at a
/// place, or a NaN past the end, and `length` how many units or items there are.
pub proof fn lemma_known_calls(s: Seq<char>, i: int, items: Seq<SxV>, args: Seq<SxV>)
    requires
        0 <= i < 0x1_0000_0000,
    ensures
        ({
            let at = SxV::Member { obj: Box::new(SxV::Str(s)), prop: "charCodeAt"@ };
            let n = seq![SxV::Num(bits_of_int(i) as u64)];
            &&& i < utf16(s).len() ==> builtin(at, n) == Some(
                SxV::Num(bits_of_nat(utf16(s)[i] as nat) as u64),
            )
            &&& i >= utf16(s).len() ==> builtin(at, n) == Some(SxV::Num(0x7ff8_0000_0000_0000))
        }),
        builtin(
            SxV::Member { obj: Box::new(SxV::Str(s)), prop: "length"@ },
            args,
        ) == Some(SxV::Num(bits_of_nat(utf16(s).len()) as u64)),
        builtin(
            SxV::Member { obj: Box::new(SxV::Arr(items)), prop: "length"@ },
            args,
        ) == Some(SxV::Num(bits_of_nat(items.len()) as u64)),
        builtin(SxV::Ref(s), args) is None,
{
    reveal_strlit("charCodeAt");
    reveal_strlit("length");
    assert("charCodeAt"@.len() == 10 && "length"@.len() == 6);
    lemma_whole_order(0, i);
    lemma_whole_order(i, i);
    crate::jsnum::lemma_exact(i as nat);
    assert(bits_of_int(0) == 0);
    let n = seq![SxV::Num(bits_of_int(i) as u64)];
    assert(n.len() == 1 && n[0] == SxV::Num(bits_of_int(i) as u64));
    assert(int64_of(bits_of_int(i) as u64) == i);
}

proof fn lemma_call_names()
    ensures
        "parseInt"@ != "Number"@,
        "parseInt"@ != "String"@,
        "parseInt"@ != "Boolean"@,
        "Number"@ != "String"@,
        "Number"@ != "Boolean"@,
        "String"@ != "Boolean"@,
{
    reveal_strlit("parseInt");
    reveal_strlit("Number");
    reveal_strlit("String");
    reveal_strlit("Boolean");
    assert("Number"@[0] == 'N' && "String"@[0] == 'S' && "Boolean"@[0] == 'B');
}

/// What the conversion functions make of literals.
pub proof fn lemma_conversions(fl: FloatsV, n: u64, s: Seq<char>, b: bool)
    ensures
        fl.converted("Number"@, SxV::Num(n)) == SxV::Num(n),
        fl.converted("Number"@, SxV::Bool(true)) == SxV::Num(bits_of_nat(1) as u64),
        fl.converted("Number"@, SxV::Bool(false)) == SxV::Num(0),
        fl.converted("Number"@, SxV::Undef) == SxV::Num(0x7ff8_0000_0000_0000),
        fl.converted("Number"@, SxV::Null) == SxV::Num(0),
        fl.converted("String"@, SxV::Str(s)) == SxV::Str(s),
        fl.converted("String"@, SxV::Num(n)) == SxV::Str(fl.num_text(n)),
        fl.converted("String"@, SxV::Bool(true)) == SxV::Str("true"@),
        fl.converted("String"@, SxV::Bool(false)) == SxV::Str("false"@),
        fl.converted("String"@, SxV::Undef) == SxV::Str("undefined"@),
        fl.converted("String"@, SxV::Null) == SxV::Str("null"@),
        fl.converted("parseInt"@, SxV::Num(n)) == SxV::Num(n),
        fl.converted("parseInt"@, SxV::Str(s)) == SxV::Num(fl.parse_int_of(s, 0)),
        fl.converted("Number"@, SxV::Str(s)) == SxV::Num(fl.number_text(s)),
        fl.converted("Boolean"@, SxV::Bool(b)) == SxV::Bool(b),
        fl.converted("Boolean"@, SxV::Str(s)) == SxV::Bool(s.len() > 0),
        fl.converted("Boolean"@, SxV::Undef) == SxV::Bool(false),
        fl.converted("Boolean"@, SxV::Null) == SxV::Bool(false),
{
    lemma_call_names();
    lemma_one();
}

/// The parameters of a function keep their order.
pub proof fn lemma_parameters(p: Seq<Option<String>>, n: int)
    requires
        0 <= n <= p.len(),
        forall|i: int| 0 <= i < p.len() ==> (#[trigger] p[i]) is Some,
    ensures
        plain_params(p, n).len() == n,
        forall|i: int| 0 <= i < n ==> #[trigger] plain_params(p, n)[i] == p[i]->0@,
    decreases n,
{
    if n > 0 {
        lemma_parameters(p, n - 1);
        assert(p[n - 1] is Some);
        assert forall|i: int| 0 <= i < n implies #[trigger] plain_params(p, n)[i] == p[i]->0@ by {
            if i < n - 1 {
                assert(plain_params(p, n)[i] == plain_params(p, n - 1)[i]);
            }
        }
    }
}

/// A conversion of something that is no literal stays a call of the same function on it.
pub proof fn lemma_kept_conversion(fl: FloatsV, name: Seq<char>, r: Seq<char>)
    requires
        name == "parseInt"@ || name == "Number"@ || name == "String"@ || name == "Boolean"@,
    ensures
        fl.converted(name, SxV::Ref(r)) == (SxV::Call {
            callee: Box::new(SxV::Ref(name)),
            args: seq![SxV::Ref(r)],
        }),
{
    lemma_call_names();
}

/// A call of anything else stays a call, unless a string or an array answers it by itself;
/// its callee is folded first and then its arguments. So does a call with `new`.
pub proof fn lemma_kept_call(
    w: World,
    e: &Expr,
    d: int,
    s: Scopes,
    c: SxV,
    s1: Scopes,
    a: Seq<SxV>,
    s2: Scopes,
)
    requires
        d <= 64,
    ensures
        e is Call && !((*e->Call_callee) is Ident) && folds(w, &*e->Call_callee, d + 1, s, c, s1)
            && w.items(
            e->Call_args@,
            e->Call_args@.len() as int,
            d + 1,
            s1,
            "spread-аргумент"@,
        ) == Ok::<(Seq<SxV>, Scopes), Seq<char>>((a, s2)) ==> folds(
            w,
            e,
            d,
            s,
            if builtin(c, a) is Some {
                builtin(c, a)->0
            } else {
                SxV::Call { callee: Box::new(c), args: a }
            },
            s2,
        ),
        e is New && folds(w, &*e->New_callee, d + 1, s, c, s1) && w.items(
            e->New_args@,
            e->New_args@.len() as int,
            d + 1,
            s1,
            "spread в new"@,
        ) == Ok::<(Seq<SxV>, Scopes), Seq<char>>((a, s2)) ==> folds(
            w,
            e,
            d,
            s,
            SxV::New { callee: Box::new(c), args: a },
            s2,
        ),
{
}

/// Lists are folded item by item, in their order; a spread among them is an error.
pub proof fn lemma_items(
    w: World,
    v: Seq<Option<Expr>>,
    n: int,
    d: int,
    s: Scopes,
    m: Seq<char>,
    out: Seq<SxV>,
    s1: Scopes,
    x: SxV,
    s2: Scopes,
)
    requires
        0 <= n < v.len(),
        w.items(v, n, d, s, m) == Ok::<(Seq<SxV>, Scopes), Seq<char>>((out, s1)),
    ensures
        w.items(v, 0, d, s, m) == Ok::<(Seq<SxV>, Scopes), Seq<char>>((seq![], s)),
        v[n] is Some && folds(w, &v[n]->0, d, s1, x, s2) ==> w.items(v, n + 1, d, s, m) == Ok::<
            (Seq<SxV>, Scopes),
            Seq<char>,
        >((out.push(x), s2)),
        v[n] is None ==> w.items(v, n + 1, d, s, m) == Err::<(Seq<SxV>, Scopes), Seq<char>>(m),
{
}

/// The properties of an object are folded in their order, each under its own name.
pub proof fn lemma_fields(
    w: World,
    v: Seq<Option<Prop>>,
    n: int,
    d: int,
    s: Scopes,
    out: Seq<(Seq<char>, SxV)>,
    s1: Scopes,
    x: SxV,
    s2: Scopes,
)
    requires
        0 <= n < v.len(),
        v[n] is Some,
        v[n]->0.key is Name,
        w.fields(v, n, d, s) == Ok::<(Seq<(Seq<char>, SxV)>, Scopes), Seq<char>>((out, s1)),
        folds(w, &v[n]->0.value, d, s1, x, s2),
    ensures
        w.fields(v, 0, d, s) == Ok::<(Seq<(Seq<char>, SxV)>, Scopes), Seq<char>>((seq![], s)),
        w.fields(v, n + 1, d, s) == Ok::<(Seq<(Seq<char>, SxV)>, Scopes), Seq<char>>(
            (out.push((v[n]->0.key->Name_0@, x)), s2),
        ),
{
    assert(w.key(&v[n]->0.key, d, s1) == Ok::<(Seq<char>, Scopes), Seq<char>>(
        (v[n]->0.key->Name_0@, s1),
    ));
}

/// Arrays, objects and sequences hold what their parts fold to; a sequence of one is that
/// one.
pub proof fn lemma_lists(
    w: World,
    e: &Expr,
    d: int,
    s: Scopes,
    v: Seq<SxV>,
    o: Seq<(Seq<char>, SxV)>,
    t: Scopes,
)
    requires
        d <= 64,
    ensures
        e is Array && w.items(
            e->Array_0@,
            e->Array_0@.len() as int,
            d + 1,
            s,
            "spread/дыра в массиве"@,
        ) == Ok::<(Seq<SxV>, Scopes), Seq<char>>((v, t)) ==> folds(w, e, d, s, SxV::Arr(v), t),
        e is Object && w.fields(e->Object_0@, e->Object_0@.len() as int, d + 1, s) == Ok::<
            (Seq<(Seq<char>, SxV)>, Scopes),
            Seq<char>,
        >((o, t)) ==> folds(w, e, d, s, SxV::Obj(o), t),
        e is Sequence && w.exprs(e->Sequence_0@, e->Sequence_0@.len() as int, d + 1, s) == Ok::<
            (Seq<SxV>, Scopes),
            Seq<char>,
        >((v, t)) ==> folds(w, e, d, s, if v.len() == 1 { v[0] } else { SxV::Sequence(v) }, t),
{
}

/// A function is folded in a scope of its own that is left behind it; an arrow with a value
/// returns it.
pub proof fn lemma_functions(
    w: World,
    e: &Expr,
    d: int,
    s: Scopes,
    body: Seq<SxV>,
    x: SxV,
    t: Scopes,
)
    requires
        d <= 64,
    ensures
        e is Func && e->Func_0.body is Some && w.stmts(
            e->Func_0.body->0@,
            e->Func_0.body->0@.len() as int,
            d + 1,
            s.entered().with_params(e->Func_0.params@, e->Func_0.params@.len() as int),
        ) == Ok::<(Seq<SxV>, Scopes), Seq<char>>((body, t)) ==> folds(
            w,
            e,
            d,
            s,
            SxV::Fn {
                params: plain_params(e->Func_0.params@, e->Func_0.params@.len() as int),
                body,
                arrow: false,
            },
            t.left(),
        ),
        e is Arrow && e->Arrow_body is Value && folds(
            w,
            &*e->Arrow_body->Value_0,
            d + 1,
            s.entered().with_params(e->Arrow_params@, e->Arrow_params@.len() as int),
            x,
            t,
        ) ==> folds(
            w,
            e,
            d,
            s,
            SxV::Fn {
                params: plain_params(e->Arrow_params@, e->Arrow_params@.len() as int),
                body: seq![SxV::Ret(Some(Box::new(x)))],
                arrow: true,
            },
            t.left(),
        ),
        e is Arrow && e->Arrow_body is Block && w.stmts(
            e->Arrow_body->Block_0@,
            e->Arrow_body->Block_0@.len() as int,
            d + 1,
            s.entered().with_params(e->Arrow_params@, e->Arrow_params@.len() as int),
        ) == Ok::<(Seq<SxV>, Scopes), Seq<char>>((body, t)) ==> folds(
            w,
            e,
            d,
            s,
            SxV::Fn {
                params: plain_params(e->Arrow_params@, e->Arrow_params@.len() as int),
                body,
                arrow: true,
            },
            t.left(),
        ),
{
}

/// A `try` keeps its body, its handler and its last part, in this order.
pub proof fn lemma_tries(
    w: World,
    e: &Stmt,
    d: int,
    s: Scopes,
    a: Seq<SxV>,
    s1: Scopes,
    h: Option<(Seq<char>, Seq<SxV>)>,
    s2: Scopes,
    b: Seq<SxV>,
    s3: Scopes,
)
    requires
        d <= 64,
        e is Try,
        e->Try_finalizer is Some,
        w.block(e->Try_block@, d + 1, s) == Ok::<(Seq<SxV>, Scopes), Seq<char>>((a, s1)),
        w.handler(e->Try_handler, d + 1, s1) == Ok::<
            (Option<(Seq<char>, Seq<SxV>)>, Scopes),
            Seq<char>,
        >((h, s2)),
        w.block(e->Try_finalizer->0@, d + 1, s2) == Ok::<(Seq<SxV>, Scopes), Seq<char>>((b, s3)),
    ensures
        becomes(w, e, d, s, SxV::Try { body: a, handler: h, fin: b }, s3),
{
}

/// A function that is declared leaves nothing behind but what its name stands for; a name
/// that is known already keeps what it stands for.
pub proof fn lemma_declared_function(
    w: World,
    e: &Stmt,
    d: int,
    s: Scopes,
    body: Seq<SxV>,
    t: Scopes,
)
    requires
        d <= 64,
        e is Func,
        e->Func_0.name is Some,
        e->Func_0.body is Some,
        w.stmts(e->Func_0.body->0@, e->Func_0.body->0@.len() as int, d + 1, s.entered()) == Ok::<
            (Seq<SxV>, Scopes),
            Seq<char>,
        >((body, t)),
    ensures
        s.find(e->Func_0.name->0@) is Some ==> drops(w, e, d, s, s),
        s.find(e->Func_0.name->0@) is None ==> drops(
            w,
            e,
            d,
            s,
            t.left().bound(
                e->Func_0.name->0@,
                SxV::Fn {
                    params: plain_params(e->Func_0.params@, e->Func_0.params@.len() as int),
                    body,
                    arrow: false,
                },
            ),
        ),
{
}

} // verus!
