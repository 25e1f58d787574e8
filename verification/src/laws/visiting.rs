//! Visiting a script comes to every expression in it, with the functions around it, and
//! notes what each of them shows.
use vstd::prelude::*;

#[allow(unused_imports)]
use crate::laws::walking::lemma_in_sum;
#[allow(unused_imports)]
use crate::pipeline::bundle::{
    asks_attribute, error_at, frame_of, is_string, key_name, nothing, race_at, reads_member,
    signal_set, visits, visits_all, visits_cases, visits_decls, visits_items, visits_props,
    visits_stmt, visits_stmts, zero_timeout_at, Frame, Hit, Shown, Visit,
};
#[allow(unused_imports)]
use crate::pipeline::syntax::{ArrowBody, Case, Decl, Expr, ForInit, Key, Prop, Stmt, Target};

verus! {

/// `x` stands directly inside `e`, in the same function.
pub open spec fn directly_in(x: Expr, e: Expr) -> bool {
    match e {
        Expr::Array(v, _) => v@.contains(Some(x)),
        Expr::Object(v, _) => exists|i: int|
            0 <= i < v@.len() && (#[trigger] v@[i]) is Some && (v@[i]->0.value == x || v@[i]->0.key
                == Key::Expr(x)),
        Expr::Call { callee, args, .. } => x == *callee || args@.contains(Some(x)),
        Expr::New { callee, args, .. } => x == *callee || args@.contains(Some(x)),
        Expr::Binary { l, r, .. } => x == *l || x == *r,
        Expr::Logical { l, r, .. } => x == *l || x == *r,
        Expr::Unary { arg, .. } => x == *arg,
        Expr::Await { arg, .. } => x == *arg,
        Expr::Paren(arg) => x == *arg,
        Expr::Assign { target, value, .. } => x == *value || (target matches Target::Index {
            obj,
            idx,
        } && (x == *obj || x == *idx)),
        Expr::Sequence(v, _) => v@.contains(x),
        Expr::Template { parts, .. } => parts@.contains(x),
        Expr::Cond { test, yes, no, .. } => x == *test || x == *yes || x == *no,
        Expr::Arrow { .. } => false,
        Expr::Index { obj, idx, .. } => x == *obj || x == *idx,
        Expr::Member { obj, .. } => x == *obj,
        _ => false,
    }
}

proof fn lemma_items(v: Seq<Option<Expr>>, n: int, f: Seq<Frame>, w: Visit)
    requires
        0 <= n <= v.len(),
    ensures
        visits_items(v, n, f).contains(w) <==> exists|i: int|
            0 <= i < n && (#[trigger] v[i]) is Some && visits(&v[i]->0, f).contains(w),
    decreases n,
{
    if n > 0 {
        lemma_items(v, n - 1, f, w);
        let last: Seq<Visit> = match v[n - 1] {
            Some(x) => visits(&x, f),
            None => seq![],
        };
        lemma_in_sum(visits_items(v, n - 1, f), last, w);
        assert(v[n - 1] == v[n - 1]);
        if v[n - 1] is None {
            assert(!last.contains(w));
        }
    }
}

proof fn lemma_exprs(v: Seq<Expr>, n: int, f: Seq<Frame>, w: Visit)
    requires
        0 <= n <= v.len(),
    ensures
        visits_all(v, n, f).contains(w) <==> exists|i: int|
            0 <= i < n && visits(&#[trigger] v[i], f).contains(w),
    decreases n,
{
    if n > 0 {
        lemma_exprs(v, n - 1, f, w);
        lemma_in_sum(visits_all(v, n - 1, f), visits(&v[n - 1], f), w);
        assert(v[n - 1] == v[n - 1]);
    }
}

proof fn lemma_props(v: Seq<Option<Prop>>, n: int, f: Seq<Frame>, w: Visit)
    requires
        0 <= n <= v.len(),
    ensures
        visits_props(v, n, f).contains(w) <==> exists|i: int|
            0 <= i < n && (#[trigger] v[i]) is Some && (visits(&v[i]->0.value, f).contains(w) || (
            v[i]->0.key is Expr && visits(&v[i]->0.key->Expr_0, f).contains(w))),
    decreases n,
{
    if n > 0 {
        lemma_props(v, n - 1, f, w);
        let key: Seq<Visit> = match v[n - 1] {
            Some(p) => match p.key {
                Key::Expr(k) => visits(&k, f),
                _ => seq![],
            },
            None => seq![],
        };
        let last: Seq<Visit> = match v[n - 1] {
            Some(p) => key + visits(&p.value, f),
            None => seq![],
        };
        lemma_in_sum(visits_props(v, n - 1, f), last, w);
        assert(visits_props(v, n, f) == visits_props(v, n - 1, f) + last);
        if v[n - 1] is Some {
            lemma_in_sum(key, visits(&v[n - 1]->0.value, f), w);
            assert(last.contains(w) <==> (visits(&v[n - 1]->0.value, f).contains(w) || (
            v[n - 1]->0.key is Expr && visits(&v[n - 1]->0.key->Expr_0, f).contains(w))));
        } else {
            assert(!last.contains(w));
        }
    }
}

/// Visiting an expression comes to itself first, and otherwise to exactly what visiting its
/// parts comes to, inside the same functions; the body of a function literal is visited
/// inside that function too.
#[verifier::rlimit(60)]
pub proof fn lemma_visits(e: &Expr, f: Seq<Frame>, w: Visit)
    ensures
        visits(e, f).len() > 0,
        visits(e, f)[0] == (Visit { e, frames: f }),
        !(e is Arrow) && !(e is Func) ==> (visits(e, f).contains(w) <==> w == (Visit {
            e,
            frames: f,
        }) || exists|x: Expr| #[trigger] directly_in(x, *e) && visits(&x, f).contains(w)),
        e is Func && e->Func_0.body is Some ==> (visits(e, f).contains(w) <==> w == (Visit {
            e,
            frames: f,
        }) || visits_stmts(
            e->Func_0.body->0@,
            e->Func_0.body->0@.len() as int,
            f.push(frame_of(e->Func_0)),
        ).contains(w)),
        e is Arrow && e->Arrow_body is Value ==> (visits(e, f).contains(w) <==> w == (Visit {
            e,
            frames: f,
        }) || visits(
            &*e->Arrow_body->Value_0,
            f.push(Frame { start: e->Arrow_start, end: e->Arrow_end, name: None }),
        ).contains(w)),
        e is Arrow && e->Arrow_body is Block ==> (visits(e, f).contains(w) <==> w == (Visit {
            e,
            frames: f,
        }) || visits_stmts(
            e->Arrow_body->Block_0@,
            e->Arrow_body->Block_0@.len() as int,
            f.push(Frame { start: e->Arrow_start, end: e->Arrow_end, name: None }),
        ).contains(w)),
{
    let me = Visit { e, frames: f };
    let own = seq![me];
    let all = visits(e, f);
    let rest = all.skip(1);
    assert(all[0] == me);
    assert(all =~= own + rest);
    lemma_in_sum(own, rest, w);
    assert(own.contains(w) <==> w == me) by {
        if w == me {
            assert(own[0] == w);
        }
    }
    match e {
        Expr::Array(v, _) => {
            assert(rest =~= visits_items(v@, v@.len() as int, f));
            lemma_items(v@, v@.len() as int, f, w);
            lemma_of_items(*e, v@, f, w);
        },
        Expr::Object(v, _) => {
            assert(rest =~= visits_props(v@, v@.len() as int, f));
            lemma_props(v@, v@.len() as int, f, w);
            if rest.contains(w) {
                let i = choose|i: int|
                    0 <= i < v@.len() && (#[trigger] v@[i]) is Some && (visits(
                        &v@[i]->0.value,
                        f,
                    ).contains(w) || (v@[i]->0.key is Expr && visits(
                        &v@[i]->0.key->Expr_0,
                        f,
                    ).contains(w)));
                assert(directly_in(v@[i]->0.value, *e));
                if v@[i]->0.key is Expr {
                    assert(directly_in(v@[i]->0.key->Expr_0, *e));
                }
            }
            if exists|x: Expr| #[trigger] directly_in(x, *e) && visits(&x, f).contains(w) {
                let x = choose|x: Expr| #[trigger] directly_in(x, *e) && visits(&x, f).contains(w);
                assert(rest.contains(w));
            }
        },
        Expr::Call { callee, args, .. } | Expr::New { callee, args, .. } => {
            let items = visits_items(args@, args@.len() as int, f);
            assert(rest =~= visits(&**callee, f) + items);
            lemma_in_sum(visits(&**callee, f), items, w);
            lemma_items(args@, args@.len() as int, f, w);
            lemma_of_items(*e, args@, f, w);
            assert(directly_in(**callee, *e));
        },
        Expr::Binary { l, r, .. } | Expr::Logical { l, r, .. } => {
            assert(rest =~= visits(&**l, f) + visits(&**r, f));
            lemma_in_sum(visits(&**l, f), visits(&**r, f), w);
            assert(directly_in(**l, *e) && directly_in(**r, *e));
        },
        Expr::Unary { arg, .. } | Expr::Await { arg, .. } | Expr::Paren(arg) => {
            assert(rest =~= visits(&**arg, f));
            assert(directly_in(**arg, *e));
        },
        Expr::Assign { target, value, .. } => {
            assert(directly_in(**value, *e));
            match target {
                Target::Index { obj, idx } => {
                    let t = visits(&**obj, f) + visits(&**idx, f);
                    assert(rest =~= visits(&**value, f) + t);
                    lemma_in_sum(visits(&**value, f), t, w);
                    lemma_in_sum(visits(&**obj, f), visits(&**idx, f), w);
                    assert(directly_in(**obj, *e) && directly_in(**idx, *e));
                },
                _ => {
                    assert(rest =~= visits(&**value, f));
                },
            }
        },
        Expr::Sequence(v, _) => {
            assert(rest =~= visits_all(v@, v@.len() as int, f));
            lemma_exprs(v@, v@.len() as int, f, w);
            lemma_of_exprs(*e, v@, f, w);
        },
        Expr::Template { parts, .. } => {
            assert(rest =~= visits_all(parts@, parts@.len() as int, f));
            lemma_exprs(parts@, parts@.len() as int, f, w);
            lemma_of_exprs(*e, parts@, f, w);
        },
        Expr::Cond { test, yes, no, .. } => {
            let t = visits(&**test, f) + visits(&**yes, f);
            assert(rest =~= t + visits(&**no, f));
            lemma_in_sum(t, visits(&**no, f), w);
            lemma_in_sum(visits(&**test, f), visits(&**yes, f), w);
            assert(directly_in(**test, *e) && directly_in(**yes, *e) && directly_in(**no, *e));
        },
        Expr::Index { obj, idx, .. } => {
            assert(rest =~= visits(&**obj, f) + visits(&**idx, f));
            lemma_in_sum(visits(&**obj, f), visits(&**idx, f), w);
            assert(directly_in(**obj, *e) && directly_in(**idx, *e));
        },
        Expr::Member { obj, .. } => {
            assert(rest =~= visits(&**obj, f));
            assert(directly_in(**obj, *e));
        },
        Expr::Arrow { body, start, end, .. } => {
            let g = f.push(Frame { start: *start, end: *end, name: None });
            match body {
                ArrowBody::Block(b) => {
                    assert(rest =~= visits_stmts(b@, b@.len() as int, g));
                },
                ArrowBody::Value(x) => {
                    assert(rest =~= visits(&**x, g));
                },
            }
        },
        Expr::Func(fun, _) => {
            if let Some(b) = fun.body {
                assert(rest =~= visits_stmts(b@, b@.len() as int, f.push(frame_of(*fun))));
            }
        },
        _ => {
            assert(rest =~= seq![]);
        },
    }
}

proof fn lemma_of_items(e: Expr, v: Seq<Option<Expr>>, f: Seq<Frame>, w: Visit)
    requires
        forall|x: Expr| v.contains(Some(x)) ==> #[trigger] directly_in(x, e),
    ensures
        (exists|i: int| 0 <= i < v.len() && (#[trigger] v[i]) is Some && visits(&v[i]->0, f).contains(w))
            <==> (exists|x: Expr| #[trigger] v.contains(Some(x)) && visits(&x, f).contains(w)),
        (exists|i: int| 0 <= i < v.len() && (#[trigger] v[i]) is Some && visits(&v[i]->0, f).contains(w))
            ==> (exists|x: Expr| #[trigger] directly_in(x, e) && visits(&x, f).contains(w)),
{
    if exists|i: int| 0 <= i < v.len() && (#[trigger] v[i]) is Some && visits(&v[i]->0, f).contains(w) {
        let i = choose|i: int|
            0 <= i < v.len() && (#[trigger] v[i]) is Some && visits(&v[i]->0, f).contains(w);
        let x = v[i]->0;
        assert(v[i] == Some(x));
        assert(v.contains(Some(x)));
        assert(directly_in(x, e));
    }
    if exists|x: Expr| #[trigger] v.contains(Some(x)) && visits(&x, f).contains(w) {
        let x = choose|x: Expr| #[trigger] v.contains(Some(x)) && visits(&x, f).contains(w);
        let i = choose|i: int| 0 <= i < v.len() && v[i] == Some(x);
        assert(v[i] is Some);
    }
}

proof fn lemma_of_exprs(e: Expr, v: Seq<Expr>, f: Seq<Frame>, w: Visit)
    requires
        forall|x: Expr| v.contains(x) <==> #[trigger] directly_in(x, e),
    ensures
        (exists|i: int| 0 <= i < v.len() && visits(&#[trigger] v[i], f).contains(w)) <==> (exists|
            x: Expr,
        | #[trigger] directly_in(x, e) && visits(&x, f).contains(w)),
{
    if exists|i: int| 0 <= i < v.len() && visits(&#[trigger] v[i], f).contains(w) {
        let i = choose|i: int| 0 <= i < v.len() && visits(&#[trigger] v[i], f).contains(w);
        assert(v.contains(v[i]));
        assert(directly_in(v[i], e));
    }
    if exists|x: Expr| #[trigger] directly_in(x, e) && visits(&x, f).contains(w) {
        let x = choose|x: Expr| #[trigger] directly_in(x, e) && visits(&x, f).contains(w);
        assert(v.contains(x));
    }
}

// ------------------------------------------------------------------------- statements

/// `x` stands directly in the statement `s`, in the same function.
pub open spec fn stands_in(x: Expr, s: Stmt) -> bool {
    match s {
        Stmt::Value(e) => x == e,
        Stmt::Vars(v) => exists|i: int| 0 <= i < v@.len() && (#[trigger] v@[i]).init == Some(x),
        Stmt::Return(e) => e == Some(x),
        Stmt::Throw(e) => x == e,
        Stmt::If { test, .. } => x == test,
        Stmt::While { test, .. } => x == test,
        Stmt::DoWhile { test, .. } => x == test,
        Stmt::For { init, test, update, .. } => test == Some(x) || update == Some(x) || (
        init matches ForInit::Vars(v) && exists|i: int|
            0 <= i < v@.len() && (#[trigger] v@[i]).init == Some(x)),
        Stmt::ForOf { right, .. } => x == right,
        Stmt::ForIn { right, .. } => x == right,
        Stmt::Switch { on, cases, .. } => x == on || exists|i: int|
            0 <= i < cases@.len() && (#[trigger] cases@[i]).test == Some(x),
        _ => false,
    }
}

/// `t` is a statement directly inside the statement `s`, in the same function.
pub open spec fn nested_in(t: Stmt, s: Stmt) -> bool {
    match s {
        Stmt::Block(b) => b@.contains(t),
        Stmt::If { yes, no, .. } => t == *yes || no == Some(Box::new(t)),
        Stmt::While { body, .. } => t == *body,
        Stmt::DoWhile { body, .. } => t == *body,
        Stmt::For { body, .. } => t == *body,
        Stmt::ForOf { body, .. } => t == *body,
        Stmt::ForIn { body, .. } => t == *body,
        Stmt::Labeled { body, .. } => t == *body,
        Stmt::Try { block, handler, finalizer } => block@.contains(t) || (handler is Some && (
        handler->0).body@.contains(t)) || (finalizer is Some && finalizer->0@.contains(t)),
        Stmt::Switch { cases, .. } => exists|i: int|
            0 <= i < cases@.len() && (#[trigger] cases@[i]).body@.contains(t),
        _ => false,
    }
}

/// Visiting statements comes to exactly what visiting each of them comes to.
pub proof fn lemma_visits_list(v: Seq<Stmt>, n: int, f: Seq<Frame>, w: Visit)
    requires
        0 <= n <= v.len(),
    ensures
        visits_stmts(v, n, f).contains(w) <==> exists|i: int|
            0 <= i < n && visits_stmt(&#[trigger] v[i], f).contains(w),
    decreases n,
{
    if n > 0 {
        lemma_visits_list(v, n - 1, f, w);
        lemma_in_sum(visits_stmts(v, n - 1, f), visits_stmt(&v[n - 1], f), w);
        assert(v[n - 1] == v[n - 1]);
    }
}

/// What is visited inside a statement: what its own expressions and the statements in it
/// come to.
pub open spec fn comes_from(s: Stmt, f: Seq<Frame>, w: Visit) -> bool {
    ||| exists|x: Expr| #[trigger] stands_in(x, s) && visits(&x, f).contains(w)
    ||| exists|t: Stmt| #[trigger] nested_in(t, s) && visits_stmt(&t, f).contains(w)
}

proof fn lemma_decls(v: Seq<Decl>, n: int, f: Seq<Frame>, w: Visit)
    requires
        0 <= n <= v.len(),
    ensures
        visits_decls(v, n, f).contains(w) <==> exists|i: int|
            0 <= i < n && (#[trigger] v[i]).init is Some && visits(&v[i].init->0, f).contains(w),
    decreases n,
{
    if n > 0 {
        lemma_decls(v, n - 1, f, w);
        let last: Seq<Visit> = match v[n - 1].init {
            Some(x) => visits(&x, f),
            None => seq![],
        };
        lemma_in_sum(visits_decls(v, n - 1, f), last, w);
        assert(v[n - 1] == v[n - 1]);
        if v[n - 1].init is None {
            assert(!last.contains(w));
        }
    }
}

proof fn lemma_cases(v: Seq<Case>, n: int, f: Seq<Frame>, w: Visit)
    requires
        0 <= n <= v.len(),
    ensures
        visits_cases(v, n, f).contains(w) <==> exists|i: int|
            0 <= i < n && (((#[trigger] v[i]).test is Some && visits(&v[i].test->0, f).contains(w))
                || visits_stmts(v[i].body@, v[i].body@.len() as int, f).contains(w)),
    decreases n,
{
    if n > 0 {
        lemma_cases(v, n - 1, f, w);
        let test: Seq<Visit> = match v[n - 1].test {
            Some(x) => visits(&x, f),
            None => seq![],
        };
        let body = visits_stmts(v[n - 1].body@, v[n - 1].body@.len() as int, f);
        let so_far = visits_cases(v, n - 1, f);
        lemma_in_sum(so_far + test, body, w);
        lemma_in_sum(so_far, test, w);
        assert(visits_cases(v, n, f) =~= so_far + test + body);
        assert(v[n - 1] == v[n - 1]);
        if v[n - 1].test is None {
            assert(!test.contains(w));
        }
    }
}

proof fn lemma_from_list(b: Seq<Stmt>, s: Stmt, f: Seq<Frame>, w: Visit)
    requires
        forall|t: Stmt| b.contains(t) ==> #[trigger] nested_in(t, s),
    ensures
        visits_stmts(b, b.len() as int, f).contains(w) ==> comes_from(s, f, w),
        forall|t: Stmt| #[trigger] b.contains(t) && visits_stmt(&t, f).contains(w) ==> visits_stmts(
            b,
            b.len() as int,
            f,
        ).contains(w),
{
    lemma_visits_list(b, b.len() as int, f, w);
    if visits_stmts(b, b.len() as int, f).contains(w) {
        let i = choose|i: int| 0 <= i < b.len() && visits_stmt(&#[trigger] b[i], f).contains(w);
        assert(b.contains(b[i]));
        assert(nested_in(b[i], s));
    }
}

/// Visiting a statement comes to exactly what visiting its expressions and the statements
/// in it comes to; a function that is declared is visited inside itself.
#[verifier::rlimit(80)]
pub proof fn lemma_visits_statement(s: &Stmt, f: Seq<Frame>, w: Visit)
    ensures
        !(s is Func) ==> (visits_stmt(s, f).contains(w) <==> comes_from(*s, f, w)),
        s is Func && s->Func_0.body is Some ==> visits_stmt(s, f) == visits_stmts(
            s->Func_0.body->0@,
            s->Func_0.body->0@.len() as int,
            f.push(frame_of(s->Func_0)),
        ),
{
    let all = visits_stmt(s, f);
    match s {
        Stmt::Value(x) | Stmt::Throw(x) => {
            assert(stands_in(*x, *s));
        },
        Stmt::Vars(v) => {
            lemma_decls(v@, v@.len() as int, f, w);
            if all.contains(w) {
                let i = choose|i: int|
                    0 <= i < v@.len() && (#[trigger] v@[i]).init is Some && visits(
                        &v@[i].init->0,
                        f,
                    ).contains(w);
                assert(stands_in(v@[i].init->0, *s));
            }
        },
        Stmt::Return(x) => {
            if let Some(x) = x {
                assert(stands_in(*x, *s));
            } else {
                assert(!all.contains(w));
            }
        },
        Stmt::If { test, yes, no } => {
            let last: Seq<Visit> = match no {
                Some(x) => visits_stmt(x, f),
                None => seq![],
            };
            let first = visits(test, f) + visits_stmt(&**yes, f);
            assert(all =~= first + last);
            lemma_in_sum(first, last, w);
            lemma_in_sum(visits(test, f), visits_stmt(&**yes, f), w);
            assert(stands_in(*test, *s));
            assert(nested_in(**yes, *s));
            if let Some(x) = no {
                assert(nested_in(**x, *s));
            } else {
                assert(!last.contains(w));
            }
        },
        Stmt::While { test, body } => {
            lemma_in_sum(visits(test, f), visits_stmt(&**body, f), w);
            assert(stands_in(*test, *s));
            assert(nested_in(**body, *s));
        },
        Stmt::DoWhile { body, test, .. } => {
            lemma_in_sum(visits_stmt(&**body, f), visits(test, f), w);
            assert(stands_in(*test, *s));
            assert(nested_in(**body, *s));
        },
        Stmt::For { init, test, update, body } => {
            let a: Seq<Visit> = match init {
                ForInit::Vars(v) => visits_decls(v@, v@.len() as int, f),
                _ => seq![],
            };
            let b: Seq<Visit> = match test {
                Some(x) => visits(x, f),
                None => seq![],
            };
            let c: Seq<Visit> = match update {
                Some(x) => visits(x, f),
                None => seq![],
            };
            let d = visits_stmt(&**body, f);
            assert(all =~= a + b + c + d);
            lemma_in_sum(a + b + c, d, w);
            lemma_in_sum(a + b, c, w);
            lemma_in_sum(a, b, w);
            assert(nested_in(**body, *s));
            if let Some(x) = test {
                assert(stands_in(*x, *s));
            } else {
                assert(!b.contains(w));
            }
            if let Some(x) = update {
                assert(stands_in(*x, *s));
            } else {
                assert(!c.contains(w));
            }
            if let ForInit::Vars(v) = init {
                lemma_decls(v@, v@.len() as int, f, w);
                if a.contains(w) {
                    let i = choose|i: int|
                        0 <= i < v@.len() && (#[trigger] v@[i]).init is Some && visits(
                            &v@[i].init->0,
                            f,
                        ).contains(w);
                    assert(stands_in(v@[i].init->0, *s));
                }
            } else {
                assert(!a.contains(w));
            }
        },
        Stmt::ForOf { right, body, .. } | Stmt::ForIn { right, body, .. } => {
            lemma_in_sum(visits(right, f), visits_stmt(&**body, f), w);
            assert(stands_in(*right, *s));
            assert(nested_in(**body, *s));
        },
        Stmt::Block(b) => {
            lemma_from_list(b@, *s, f, w);
        },
        Stmt::Try { block, handler, finalizer } => {
            let a = visits_stmts(block@, block@.len() as int, f);
            let b: Seq<Visit> = match handler {
                Some(h) => visits_stmts(h.body@, h.body@.len() as int, f),
                None => seq![],
            };
            let c: Seq<Visit> = match finalizer {
                Some(x) => visits_stmts(x@, x@.len() as int, f),
                None => seq![],
            };
            assert(all =~= a + b + c);
            lemma_in_sum(a + b, c, w);
            lemma_in_sum(a, b, w);
            lemma_from_list(block@, *s, f, w);
            if let Some(h) = handler {
                lemma_from_list(h.body@, *s, f, w);
            } else {
                assert(!b.contains(w));
            }
            if let Some(x) = finalizer {
                lemma_from_list(x@, *s, f, w);
            } else {
                assert(!c.contains(w));
            }
        },
        Stmt::Switch { on, cases, .. } => {
            let rest = visits_cases(cases@, cases@.len() as int, f);
            lemma_in_sum(visits(on, f), rest, w);
            lemma_cases(cases@, cases@.len() as int, f, w);
            assert(stands_in(*on, *s));
            if rest.contains(w) {
                let i = choose|i: int|
                    0 <= i < cases@.len() && (((#[trigger] cases@[i]).test is Some && visits(
                        &cases@[i].test->0,
                        f,
                    ).contains(w)) || visits_stmts(
                        cases@[i].body@,
                        cases@[i].body@.len() as int,
                        f,
                    ).contains(w));
                if cases@[i].test is Some {
                    assert(stands_in(cases@[i].test->0, *s));
                }
                lemma_from_list(cases@[i].body@, *s, f, w);
            }
            if exists|t: Stmt| #[trigger] nested_in(t, *s) && visits_stmt(&t, f).contains(w) {
                let t = choose|t: Stmt| #[trigger] nested_in(t, *s) && visits_stmt(&t, f).contains(w);
                let i = choose|i: int|
                    0 <= i < cases@.len() && (#[trigger] cases@[i]).body@.contains(t);
                lemma_from_list(cases@[i].body@, *s, f, w);
            }
        },
        Stmt::Labeled { body, .. } => {
            assert(nested_in(**body, *s));
        },
        _ => {
            assert(s is Func || !all.contains(w));
        },
    }
}

// ------------------------------------------------------------------------ what is noted

/// A flag of what is shown is raised exactly where some visit reads or asks for what it
/// stands for.
pub proof fn lemma_flags(v: Seq<Visit>)
    ensures
        nothing().with(v).be_version <==> exists|i: int|
            0 <= i < v.len() && (#[trigger] v[i]).e is Member && v[i].e->Member_prop@
                == "__DDG_BE_VERSION__"@,
        nothing().with(v).fe_hash <==> exists|i: int|
            0 <= i < v.len() && (#[trigger] v[i]).e is Member && v[i].e->Member_prop@
                == "__DDG_FE_CHAT_HASH__"@,
        nothing().with(v).tag_attr <==> exists|i: int|
            0 <= i < v.len() && asks_for(*(#[trigger] v[i]).e, "data-version-tag"@),
        nothing().with(v).sha_attr <==> exists|i: int|
            0 <= i < v.len() && asks_for(*(#[trigger] v[i]).e, "data-version-sha"@),
    decreases v.len(),
{
    if v.len() > 0 {
        let u = v.drop_last();
        let n = v.len() - 1;
        lemma_flags(u);
        lemma_asks(v[n].e, "data-version-tag"@);
        lemma_asks(v[n].e, "data-version-sha"@);
        lemma_untouched(nothing().with(u), v[n]);
        assert forall|i: int| #![trigger u[i]] #![trigger v[i]] 0 <= i < n implies v[i] == u[i] by {}
        assert(v[n] == v.last());
    }
}

/// `x.getAttribute(...)` with `name` among its arguments.
pub open spec fn asks_for(e: Expr, name: Seq<char>) -> bool {
    e is Call && (*e->Call_callee) is Member && (*e->Call_callee)->Member_prop@ == "getAttribute"@
        && exists|i: int|
        0 <= i < e->Call_args@.len() && (#[trigger] e->Call_args@[i]) is Some
            && e->Call_args@[i]->0 is Str && e->Call_args@[i]->0->Str_value@ == name
}

proof fn lemma_asks(e: &Expr, name: Seq<char>)
    ensures
        asks_attribute(e, name) == asks_for(*e, name),
{
    if asks_attribute(e, name) {
        let args = e->Call_args@;
        let i = choose|i: int| 0 <= i < args.len() && is_string(#[trigger] args[i], name);
        assert(args[i] is Some);
    }
    if asks_for(*e, name) {
        let args = e->Call_args@;
        let i = choose|i: int|
            0 <= i < args.len() && (#[trigger] args[i]) is Some && args[i]->0 is Str
                && args[i]->0->Str_value@ == name;
        assert(is_string(args[i], name));
    }
}

proof fn lemma_untouched_props(s: Shown, v: Seq<Option<Prop>>, n: int, f: Seq<Frame>)
    ensures
        ({
            let t = s.with_props(v, n, f);
            &&& t.be_version == s.be_version && t.fe_hash == s.fe_hash && t.tag_attr == s.tag_attr
                && t.sha_attr == s.sha_attr
            &&& t.timeouts == s.timeouts && t.races == s.races && t.signals == s.signals && t.zeros
                == s.zeros
        }),
    decreases n,
{
    if 0 < n <= v.len() {
        lemma_untouched_props(s, v, n - 1, f);
    }
}

proof fn lemma_untouched(s: Shown, v: Visit)
    ensures
        ({
            let t = s.with_visit(v);
            &&& t.be_version == (s.be_version || reads_member(v.e, "__DDG_BE_VERSION__"@))
            &&& t.fe_hash == (s.fe_hash || reads_member(v.e, "__DDG_FE_CHAT_HASH__"@))
            &&& t.tag_attr == (s.tag_attr || asks_attribute(v.e, "data-version-tag"@))
            &&& t.sha_attr == (s.sha_attr || asks_attribute(v.e, "data-version-sha"@))
        }),
{
    if let Expr::Object(p, _) = v.e {
        lemma_untouched_props(s, p@, p@.len() as int, v.frames);
    }
}

/// One visit more: a race, the timeout's text and a zero timer are noted where they stand,
/// behind what was noted before, with the functions around them; the first set of signals
/// stays.
pub proof fn lemma_one_visit(s: Shown, v: Visit)
    ensures
        ({
            let t = s.with_visit(v);
            &&& race_at(v.e) matches Some(at) ==> t.races == s.races.push(
                Hit { at, frames: v.frames },
            )
            &&& race_at(v.e) is None ==> t.races == s.races
            &&& zero_timeout_at(v.e) matches Some(at) ==> t.zeros == s.zeros.push(at)
            &&& zero_timeout_at(v.e) is None ==> t.zeros == s.zeros
            &&& s.signals is Some ==> t.signals == s.signals
            &&& s.signals is None ==> t.signals == signal_set(v.e)
            &&& v.e is Str && v.e->Str_value@ == "jsa_evaluation_timeout"@ ==> t.timeouts
                == s.timeouts.push(Hit { at: v.e->Str_at, frames: v.frames })
            &&& !(v.e is Str && v.e->Str_value@ == "jsa_evaluation_timeout"@) ==> t.timeouts
                == s.timeouts
            &&& !(v.e is Object) ==> t.errors == s.errors && t.delta == s.delta
        }),
{
    if let Expr::Object(p, _) = v.e {
        lemma_untouched_props(s, p@, p@.len() as int, v.frames);
    }
}

/// A property named `stack` notes where its error is made, one named `duration` says what
/// is taken off, if nothing has said so yet; no other property is noted.
pub proof fn lemma_one_property(s: Shown, p: Prop, f: Seq<Frame>)
    ensures
        ({
            let t = s.with_prop(p, f);
            let name = key_name(p.key);
            &&& name == Some("stack"@) && error_at(&p.value) is Some ==> t == (Shown {
                errors: s.errors.push(Hit { at: error_at(&p.value)->0, frames: f }),
                ..s
            })
            &&& name == Some("stack"@) && error_at(&p.value) is None ==> t == s
            &&& name == Some("duration"@) && s.delta is Some ==> t == s
            &&& name == Some("duration"@) && s.delta is None ==> t == (Shown {
                delta: crate::pipeline::bundle::duration_delta(&p.value),
                ..s
            })
            &&& name != Some("stack"@) && name != Some("duration"@) ==> t == s
        }),
{
    reveal_strlit("stack");
    reveal_strlit("duration");
    assert("stack"@.len() == 5 && "duration"@.len() == 8);
}

} // verus!
