//! Walks over a syntax tree, as lists of the nodes in the order they are met.
use vstd::prelude::*;

use crate::pipeline::syntax::{ArrowBody, Case, Decl, Expr, ForInit, Prop, Stmt, Target};

verus! {

// Every `..._all` function takes the first `n` items of a list, one after the
// other; the functions without it take one node.

/// The expressions inside an expression, itself first.
pub open spec fn exprs_in<'a>(e: &'a Expr) -> Seq<&'a Expr>
    decreases e, 0int,
{
    seq![e] + match e {
        Expr::Binary { l, r, .. } | Expr::Logical { l, r, .. } => exprs_in(l) + exprs_in(r),
        Expr::Unary { arg, .. } | Expr::Await { arg, .. } | Expr::Paren(arg) => exprs_in(arg),
        Expr::Sequence(v, _) => exprs_in_all(v@, v@.len() as int),
        Expr::Cond { test, yes, no, .. } => exprs_in(test) + exprs_in(yes) + exprs_in(no),
        Expr::Assign { target, value, .. } => exprs_in(value) + match target {
            Target::Index { obj, idx } => exprs_in(obj) + exprs_in(idx),
            Target::Member { obj, .. } => exprs_in(obj),
            _ => seq![],
        },
        Expr::Call { callee, args, .. } | Expr::New { callee, args, .. } => exprs_in(callee)
            + exprs_in_args_all(args@, args@.len() as int),
        Expr::Member { obj, .. } => exprs_in(obj),
        Expr::Index { obj, idx, .. } => exprs_in(obj) + exprs_in(idx),
        Expr::Array(v, _) => exprs_in_args_all(v@, v@.len() as int),
        Expr::Object(v, _) => exprs_in_props_all(v@, v@.len() as int),
        Expr::Func(f, _) => match f.body {
            Some(b) => exprs_in_stmt_all(b@, b@.len() as int),
            None => seq![],
        },
        Expr::Arrow { body, .. } => match body {
            ArrowBody::Block(b) => exprs_in_stmt_all(b@, b@.len() as int),
            ArrowBody::Value(x) => exprs_in(x),
        },
        Expr::Class(c, _) => exprs_in_stmt_bodies_all(c.bodies@, c.bodies@.len() as int),
        _ => seq![],
    }
}

pub open spec fn exprs_in_all<'a>(v: Seq<Expr>, n: int) -> Seq<&'a Expr>
    decreases v, n,
{
    if n <= 0 || n > v.len() {
        seq![]
    } else {
        exprs_in_all(v, n - 1) + exprs_in(&v[n - 1])
    }
}

pub open spec fn exprs_in_args_all<'a>(v: Seq<Option<Expr>>, n: int) -> Seq<&'a Expr>
    decreases v, n,
{
    if n <= 0 || n > v.len() {
        seq![]
    } else {
        exprs_in_args_all(v, n - 1) + match v[n - 1] {
            Some(x) => exprs_in(&x),
            None => seq![],
        }
    }
}

pub open spec fn exprs_in_props_all<'a>(v: Seq<Option<Prop>>, n: int) -> Seq<&'a Expr>
    decreases v, n,
{
    if n <= 0 || n > v.len() {
        seq![]
    } else {
        exprs_in_props_all(v, n - 1) + match v[n - 1] {
            Some(p) => exprs_in(&p.value),
            None => seq![],
        }
    }
}

pub open spec fn exprs_in_decls_all<'a>(v: Seq<Decl>, n: int) -> Seq<&'a Expr>
    decreases v, n,
{
    if n <= 0 || n > v.len() {
        seq![]
    } else {
        exprs_in_decls_all(v, n - 1) + match v[n - 1].init {
            Some(x) => exprs_in(&x),
            None => seq![],
        }
    }
}

pub open spec fn exprs_in_stmt_bodies_all<'a>(v: Seq<Vec<Stmt>>, n: int) -> Seq<&'a Expr>
    decreases v, n,
{
    if n <= 0 || n > v.len() {
        seq![]
    } else {
        exprs_in_stmt_bodies_all(v, n - 1) + exprs_in_stmt_all(v[n - 1]@, v[n - 1]@.len() as int)
    }
}

pub open spec fn exprs_in_stmt_cases_all<'a>(v: Seq<Case>, n: int) -> Seq<&'a Expr>
    decreases v, n,
{
    if n <= 0 || n > v.len() {
        seq![]
    } else {
        exprs_in_stmt_cases_all(v, n - 1) + match v[n - 1].test {
            Some(x) => exprs_in(&x),
            None => seq![],
        } + exprs_in_stmt_all(v[n - 1].body@, v[n - 1].body@.len() as int)
    }
}

pub open spec fn exprs_in_stmt_all<'a>(v: Seq<Stmt>, n: int) -> Seq<&'a Expr>
    decreases v, n,
{
    if n <= 0 || n > v.len() {
        seq![]
    } else {
        exprs_in_stmt_all(v, n - 1) + exprs_in_stmt(&v[n - 1])
    }
}

/// The expressions inside a statement.
pub open spec fn exprs_in_stmt<'a>(s: &'a Stmt) -> Seq<&'a Expr>
    decreases s, 0int,
{
    match s {
        Stmt::Value(x) => exprs_in(x),
        Stmt::Vars(v) => exprs_in_decls_all(v@, v@.len() as int),
        Stmt::Func(f) => match f.body {
            Some(b) => exprs_in_stmt_all(b@, b@.len() as int),
            None => seq![],
        },
        Stmt::Return(x) => match x {
            Some(x) => exprs_in(x),
            None => seq![],
        },
        Stmt::If { test, yes, no } => exprs_in(test) + exprs_in_stmt(yes) + match no {
            Some(x) => exprs_in_stmt(x),
            None => seq![],
        },
        Stmt::While { test, body } => exprs_in(test) + exprs_in_stmt(body),
        Stmt::DoWhile { body, test, .. } => exprs_in_stmt(body) + exprs_in(test),
        Stmt::For { init, test, update, body } => {
            (match init {
                ForInit::Vars(v) => exprs_in_decls_all(v@, v@.len() as int),
                _ => seq![],
            }) + match test {
                Some(x) => exprs_in(x),
                None => seq![],
            } + match update {
                Some(x) => exprs_in(x),
                None => seq![],
            } + exprs_in_stmt(body)
        },
        Stmt::ForOf { right, body, .. } | Stmt::ForIn { right, body, .. } => exprs_in(right) + exprs_in_stmt(body),
        Stmt::Block(b) => exprs_in_stmt_all(b@, b@.len() as int),
        Stmt::Try { block, handler, finalizer } => {
            exprs_in_stmt_all(block@, block@.len() as int) + match handler {
                Some(h) => exprs_in_stmt_all(h.body@, h.body@.len() as int),
                None => seq![],
            } + match finalizer {
                Some(b) => exprs_in_stmt_all(b@, b@.len() as int),
                None => seq![],
            }
        },
        Stmt::Switch { on, cases, .. } => exprs_in(on) + exprs_in_stmt_cases_all(cases@, cases@.len() as int),
        Stmt::Throw(x) => exprs_in(x),
        Stmt::Labeled { body: x, .. } => exprs_in_stmt(x),
        Stmt::Class(c) => exprs_in_stmt_bodies_all(c.bodies@, c.bodies@.len() as int),
        _ => seq![],
    }
}

/// The statements inside the functions and classes of an expression.
pub open spec fn stmts_in_expr<'a>(e: &'a Expr) -> Seq<&'a Stmt>
    decreases e, 0int,
{
    match e {
        Expr::Binary { l, r, .. } | Expr::Logical { l, r, .. } => stmts_in_expr(l) + stmts_in_expr(r),
        Expr::Unary { arg, .. } | Expr::Await { arg, .. } | Expr::Paren(arg) => stmts_in_expr(arg),
        Expr::Sequence(v, _) => stmts_in_expr_all(v@, v@.len() as int),
        Expr::Cond { test, yes, no, .. } => stmts_in_expr(test) + stmts_in_expr(yes) + stmts_in_expr(no),
        Expr::Assign { target, value, .. } => stmts_in_expr(value) + match target {
            Target::Index { obj, idx } => stmts_in_expr(obj) + stmts_in_expr(idx),
            Target::Member { obj, .. } => stmts_in_expr(obj),
            _ => seq![],
        },
        Expr::Call { callee, args, .. } | Expr::New { callee, args, .. } => stmts_in_expr(callee)
            + stmts_in_expr_args_all(args@, args@.len() as int),
        Expr::Member { obj, .. } => stmts_in_expr(obj),
        Expr::Index { obj, idx, .. } => stmts_in_expr(obj) + stmts_in_expr(idx),
        Expr::Array(v, _) => stmts_in_expr_args_all(v@, v@.len() as int),
        Expr::Object(v, _) => stmts_in_expr_props_all(v@, v@.len() as int),
        Expr::Func(f, _) => match f.body {
            Some(b) => stmts_in_all(b@, b@.len() as int),
            None => seq![],
        },
        Expr::Arrow { body, .. } => match body {
            ArrowBody::Block(b) => stmts_in_all(b@, b@.len() as int),
            ArrowBody::Value(x) => stmts_in_expr(x),
        },
        Expr::Class(c, _) => stmts_in_bodies_all(c.bodies@, c.bodies@.len() as int),
        _ => seq![],
    }
}

pub open spec fn stmts_in_expr_all<'a>(v: Seq<Expr>, n: int) -> Seq<&'a Stmt>
    decreases v, n,
{
    if n <= 0 || n > v.len() {
        seq![]
    } else {
        stmts_in_expr_all(v, n - 1) + stmts_in_expr(&v[n - 1])
    }
}

pub open spec fn stmts_in_expr_args_all<'a>(v: Seq<Option<Expr>>, n: int) -> Seq<&'a Stmt>
    decreases v, n,
{
    if n <= 0 || n > v.len() {
        seq![]
    } else {
        stmts_in_expr_args_all(v, n - 1) + match v[n - 1] {
            Some(x) => stmts_in_expr(&x),
            None => seq![],
        }
    }
}

pub open spec fn stmts_in_expr_props_all<'a>(v: Seq<Option<Prop>>, n: int) -> Seq<&'a Stmt>
    decreases v, n,
{
    if n <= 0 || n > v.len() {
        seq![]
    } else {
        stmts_in_expr_props_all(v, n - 1) + match v[n - 1] {
            Some(p) => stmts_in_expr(&p.value),
            None => seq![],
        }
    }
}

pub open spec fn stmts_in_expr_decls_all<'a>(v: Seq<Decl>, n: int) -> Seq<&'a Stmt>
    decreases v, n,
{
    if n <= 0 || n > v.len() {
        seq![]
    } else {
        stmts_in_expr_decls_all(v, n - 1) + match v[n - 1].init {
            Some(x) => stmts_in_expr(&x),
            None => seq![],
        }
    }
}

pub open spec fn stmts_in_bodies_all<'a>(v: Seq<Vec<Stmt>>, n: int) -> Seq<&'a Stmt>
    decreases v, n,
{
    if n <= 0 || n > v.len() {
        seq![]
    } else {
        stmts_in_bodies_all(v, n - 1) + stmts_in_all(v[n - 1]@, v[n - 1]@.len() as int)
    }
}

pub open spec fn stmts_in_cases_all<'a>(v: Seq<Case>, n: int) -> Seq<&'a Stmt>
    decreases v, n,
{
    if n <= 0 || n > v.len() {
        seq![]
    } else {
        stmts_in_cases_all(v, n - 1) + stmts_in_all(v[n - 1].body@, v[n - 1].body@.len() as int)
    }
}

pub open spec fn stmts_in_all<'a>(v: Seq<Stmt>, n: int) -> Seq<&'a Stmt>
    decreases v, n,
{
    if n <= 0 || n > v.len() {
        seq![]
    } else {
        stmts_in_all(v, n - 1) + stmts_in(&v[n - 1])
    }
}

/// The statements inside a statement, itself first.
pub open spec fn stmts_in<'a>(s: &'a Stmt) -> Seq<&'a Stmt>
    decreases s, 0int,
{
    seq![s] + match s {
        Stmt::Value(x) => stmts_in_expr(x),
        Stmt::Vars(v) => stmts_in_expr_decls_all(v@, v@.len() as int),
        Stmt::Func(f) => match f.body {
            Some(b) => stmts_in_all(b@, b@.len() as int),
            None => seq![],
        },
        Stmt::Return(x) => match x {
            Some(x) => stmts_in_expr(x),
            None => seq![],
        },
        Stmt::If { yes, no, .. } => stmts_in(yes) + match no {
            Some(x) => stmts_in(x),
            None => seq![],
        },
        Stmt::While { body, .. } => stmts_in(body),
        Stmt::DoWhile { body, .. } => stmts_in(body),
        Stmt::For { body, .. } => stmts_in(body),
        Stmt::ForOf { body, .. } | Stmt::ForIn { body, .. } => stmts_in(body),
        Stmt::Block(b) => stmts_in_all(b@, b@.len() as int),
        Stmt::Try { block, handler, finalizer } => {
            stmts_in_all(block@, block@.len() as int) + match handler {
                Some(h) => stmts_in_all(h.body@, h.body@.len() as int),
                None => seq![],
            } + match finalizer {
                Some(b) => stmts_in_all(b@, b@.len() as int),
                None => seq![],
            }
        },
        Stmt::Switch { cases, .. } => stmts_in_cases_all(cases@, cases@.len() as int),
        Stmt::Throw(x) => stmts_in_expr(x),
        Stmt::Labeled { body: x, .. } => stmts_in(x),
        Stmt::Class(c) => stmts_in_bodies_all(c.bodies@, c.bodies@.len() as int),
        _ => seq![],
    }
}

/// Appends the expressions inside an expression, itself first.
pub fn expr_exprs<'a>(e: &'a Expr, out: &mut Vec<&'a Expr>)
    ensures
        final(out)@ == old(out)@ + exprs_in(e),
    decreases e, 0int,
{
    let ghost start = out@;
    out.push(e);
    match e {
        Expr::Binary { l, r, .. } | Expr::Logical { l, r, .. } => {
            expr_exprs(l, out);
            expr_exprs(r, out);
        },
        Expr::Unary { arg, .. } | Expr::Await { arg, .. } | Expr::Paren(arg) => expr_exprs(arg, out),
        Expr::Sequence(v, _) => {
            let mut i: usize = 0;
            let ghost base = out@;
            assert(out@ =~= base + exprs_in_all(v@, 0));
            while i < v.len()
                invariant
                    i <= v@.len(),
                    out@ == base + exprs_in_all(v@, i as int),
                    decreases_to!(e => v@),
                decreases v@.len() - i,
            {
                expr_exprs(&v[i], out);
                i += 1;
                assert(out@ =~= base + exprs_in_all(v@, i as int));
            }
        },
        Expr::Cond { test, yes, no, .. } => {
            expr_exprs(test, out);
            expr_exprs(yes, out);
            expr_exprs(no, out);
        },
        Expr::Assign { target, value, .. } => {
            expr_exprs(value, out);
            match target {
                Target::Index { obj, idx } => {
                    expr_exprs(obj, out);
                    expr_exprs(idx, out);
                },
                Target::Member { obj, .. } => expr_exprs(obj, out),
                _ => {},
            }
        },
        Expr::Call { callee, args, .. } | Expr::New { callee, args, .. } => {
            expr_exprs(callee, out);
            expr_exprs_args(args, out);
        },
        Expr::Member { obj, .. } => expr_exprs(obj, out),
        Expr::Index { obj, idx, .. } => {
            expr_exprs(obj, out);
            expr_exprs(idx, out);
        },
        Expr::Array(v, _) => expr_exprs_args(v, out),
        Expr::Object(v, _) => expr_exprs_props(v, out),
        Expr::Func(f, _) => {
            if let Some(b) = &f.body {
                stmt_exprs_all(b, out);
            }
        },
        Expr::Arrow { body, .. } => match body {
            ArrowBody::Block(b) => stmt_exprs_all(b, out),
            ArrowBody::Value(x) => expr_exprs(x, out),
        },
        Expr::Class(c, _) => stmt_exprs_bodies(&c.bodies, out),
        _ => {},
    }
    assert(out@ =~= start + exprs_in(e));
}

fn expr_exprs_args<'a>(v: &'a Vec<Option<Expr>>, out: &mut Vec<&'a Expr>)
    ensures
        final(out)@ == old(out)@ + exprs_in_args_all(v@, v@.len() as int),
    decreases v, 0int,
{
    let ghost start = out@;
    let mut i: usize = 0;
    assert(out@ =~= start + exprs_in_args_all(v@, 0));
    while i < v.len()
        invariant
            i <= v@.len(),
            out@ == start + exprs_in_args_all(v@, i as int),
        decreases v@.len() - i,
    {
        if let Some(x) = &v[i] {
            expr_exprs(x, out);
        }
        i += 1;
        assert(out@ =~= start + exprs_in_args_all(v@, i as int));
    }
}

fn expr_exprs_props<'a>(v: &'a Vec<Option<Prop>>, out: &mut Vec<&'a Expr>)
    ensures
        final(out)@ == old(out)@ + exprs_in_props_all(v@, v@.len() as int),
    decreases v, 0int,
{
    let ghost start = out@;
    let mut i: usize = 0;
    assert(out@ =~= start + exprs_in_props_all(v@, 0));
    while i < v.len()
        invariant
            i <= v@.len(),
            out@ == start + exprs_in_props_all(v@, i as int),
        decreases v@.len() - i,
    {
        if let Some(p) = &v[i] {
            expr_exprs(&p.value, out);
        }
        i += 1;
        assert(out@ =~= start + exprs_in_props_all(v@, i as int));
    }
}

fn expr_exprs_decls<'a>(v: &'a Vec<Decl>, out: &mut Vec<&'a Expr>)
    ensures
        final(out)@ == old(out)@ + exprs_in_decls_all(v@, v@.len() as int),
    decreases v, 0int,
{
    let ghost start = out@;
    let mut i: usize = 0;
    assert(out@ =~= start + exprs_in_decls_all(v@, 0));
    while i < v.len()
        invariant
            i <= v@.len(),
            out@ == start + exprs_in_decls_all(v@, i as int),
        decreases v@.len() - i,
    {
        if let Some(x) = &v[i].init {
            expr_exprs(x, out);
        }
        i += 1;
        assert(out@ =~= start + exprs_in_decls_all(v@, i as int));
    }
}

fn stmt_exprs_bodies<'a>(v: &'a Vec<Vec<Stmt>>, out: &mut Vec<&'a Expr>)
    ensures
        final(out)@ == old(out)@ + exprs_in_stmt_bodies_all(v@, v@.len() as int),
    decreases v, 0int,
{
    let ghost start = out@;
    let mut i: usize = 0;
    assert(out@ =~= start + exprs_in_stmt_bodies_all(v@, 0));
    while i < v.len()
        invariant
            i <= v@.len(),
            out@ == start + exprs_in_stmt_bodies_all(v@, i as int),
        decreases v@.len() - i,
    {
        stmt_exprs_all(&v[i], out);
        i += 1;
        assert(out@ =~= start + exprs_in_stmt_bodies_all(v@, i as int));
    }
}

fn stmt_exprs_cases<'a>(v: &'a Vec<Case>, out: &mut Vec<&'a Expr>)
    ensures
        final(out)@ == old(out)@ + exprs_in_stmt_cases_all(v@, v@.len() as int),
    decreases v, 0int,
{
    let ghost start = out@;
    let mut i: usize = 0;
    assert(out@ =~= start + exprs_in_stmt_cases_all(v@, 0));
    while i < v.len()
        invariant
            i <= v@.len(),
            out@ == start + exprs_in_stmt_cases_all(v@, i as int),
        decreases v@.len() - i,
    {
        if let Some(x) = &v[i].test {
            expr_exprs(x, out);
        }
        stmt_exprs_all(&v[i].body, out);
        i += 1;
        assert(out@ =~= start + exprs_in_stmt_cases_all(v@, i as int));
    }
}

/// Appends the expressions inside a list of statements.
pub fn stmt_exprs_all<'a>(v: &'a Vec<Stmt>, out: &mut Vec<&'a Expr>)
    ensures
        final(out)@ == old(out)@ + exprs_in_stmt_all(v@, v@.len() as int),
    decreases v, 0int,
{
    let ghost start = out@;
    let mut i: usize = 0;
    assert(out@ =~= start + exprs_in_stmt_all(v@, 0));
    while i < v.len()
        invariant
            i <= v@.len(),
            out@ == start + exprs_in_stmt_all(v@, i as int),
        decreases v@.len() - i,
    {
        stmt_exprs(&v[i], out);
        i += 1;
        assert(out@ =~= start + exprs_in_stmt_all(v@, i as int));
    }
}

/// Appends the expressions inside a statement.
pub fn stmt_exprs<'a>(s: &'a Stmt, out: &mut Vec<&'a Expr>)
    ensures
        final(out)@ == old(out)@ + exprs_in_stmt(s),
    decreases s, 0int,
{
    let ghost start = out@;
    match s {
        Stmt::Value(x) | Stmt::Throw(x) => expr_exprs(x, out),
        Stmt::Vars(v) => expr_exprs_decls(v, out),
        Stmt::Func(f) => {
            if let Some(b) = &f.body {
                stmt_exprs_all(b, out);
            }
        },
        Stmt::Return(x) => {
            if let Some(x) = x {
                expr_exprs(x, out);
            }
        },
        Stmt::If { test, yes, no } => {
            expr_exprs(test, out);
            stmt_exprs(yes, out);
            if let Some(x) = no {
                stmt_exprs(x, out);
            }
        },
        Stmt::While { test, body } => {
            expr_exprs(test, out);
            stmt_exprs(body, out);
        },
        Stmt::DoWhile { body, test, .. } => {
            stmt_exprs(body, out);
            expr_exprs(test, out);
        },
        Stmt::For { init, test, update, body } => {
            if let ForInit::Vars(v) = init {
                expr_exprs_decls(v, out);
            }
            if let Some(x) = test {
                expr_exprs(x, out);
            }
            if let Some(x) = update {
                expr_exprs(x, out);
            }
            stmt_exprs(body, out);
        },
        Stmt::ForOf { right, body, .. } | Stmt::ForIn { right, body, .. } => {
            expr_exprs(right, out);
            stmt_exprs(body, out);
        },
        Stmt::Block(b) => stmt_exprs_all(b, out),
        Stmt::Try { block, handler, finalizer } => {
            stmt_exprs_all(block, out);
            if let Some(h) = handler {
                stmt_exprs_all(&h.body, out);
            }
            if let Some(b) = finalizer {
                stmt_exprs_all(b, out);
            }
        },
        Stmt::Switch { on, cases, .. } => {
            expr_exprs(on, out);
            stmt_exprs_cases(cases, out);
        },
        Stmt::Labeled { body: x, .. } => stmt_exprs(x, out),
        Stmt::Class(c) => stmt_exprs_bodies(&c.bodies, out),
        _ => {},
    }
    assert(out@ =~= start + exprs_in_stmt(s));
}

/// Appends the statements inside the functions and classes of an expression.
pub fn each_expr_deep<'a>(e: &'a Expr, out: &mut Vec<&'a Stmt>)
    ensures
        final(out)@ == old(out)@ + stmts_in_expr(e),
    decreases e, 0int,
{
    let ghost start = out@;
    match e {
        Expr::Binary { l, r, .. } | Expr::Logical { l, r, .. } => {
            each_expr_deep(l, out);
            each_expr_deep(r, out);
        },
        Expr::Unary { arg, .. } | Expr::Await { arg, .. } | Expr::Paren(arg) => each_expr_deep(arg, out),
        Expr::Sequence(v, _) => {
            let mut i: usize = 0;
            let ghost base = out@;
            assert(out@ =~= base + stmts_in_expr_all(v@, 0));
            while i < v.len()
                invariant
                    i <= v@.len(),
                    out@ == base + stmts_in_expr_all(v@, i as int),
                    decreases_to!(e => v@),
                decreases v@.len() - i,
            {
                each_expr_deep(&v[i], out);
                i += 1;
                assert(out@ =~= base + stmts_in_expr_all(v@, i as int));
            }
        },
        Expr::Cond { test, yes, no, .. } => {
            each_expr_deep(test, out);
            each_expr_deep(yes, out);
            each_expr_deep(no, out);
        },
        Expr::Assign { target, value, .. } => {
            each_expr_deep(value, out);
            match target {
                Target::Index { obj, idx } => {
                    each_expr_deep(obj, out);
                    each_expr_deep(idx, out);
                },
                Target::Member { obj, .. } => each_expr_deep(obj, out),
                _ => {},
            }
        },
        Expr::Call { callee, args, .. } | Expr::New { callee, args, .. } => {
            each_expr_deep(callee, out);
            each_expr_deep_args(args, out);
        },
        Expr::Member { obj, .. } => each_expr_deep(obj, out),
        Expr::Index { obj, idx, .. } => {
            each_expr_deep(obj, out);
            each_expr_deep(idx, out);
        },
        Expr::Array(v, _) => each_expr_deep_args(v, out),
        Expr::Object(v, _) => each_expr_deep_props(v, out),
        Expr::Func(f, _) => {
            if let Some(b) = &f.body {
                each_stmt_deep_all(b, out);
            }
        },
        Expr::Arrow { body, .. } => match body {
            ArrowBody::Block(b) => each_stmt_deep_all(b, out),
            ArrowBody::Value(x) => each_expr_deep(x, out),
        },
        Expr::Class(c, _) => each_stmt_deep_bodies(&c.bodies, out),
        _ => {},
    }
    assert(out@ =~= start + stmts_in_expr(e));
}

fn each_expr_deep_args<'a>(v: &'a Vec<Option<Expr>>, out: &mut Vec<&'a Stmt>)
    ensures
        final(out)@ == old(out)@ + stmts_in_expr_args_all(v@, v@.len() as int),
    decreases v, 0int,
{
    let ghost start = out@;
    let mut i: usize = 0;
    assert(out@ =~= start + stmts_in_expr_args_all(v@, 0));
    while i < v.len()
        invariant
            i <= v@.len(),
            out@ == start + stmts_in_expr_args_all(v@, i as int),
        decreases v@.len() - i,
    {
        if let Some(x) = &v[i] {
            each_expr_deep(x, out);
        }
        i += 1;
        assert(out@ =~= start + stmts_in_expr_args_all(v@, i as int));
    }
}

fn each_expr_deep_props<'a>(v: &'a Vec<Option<Prop>>, out: &mut Vec<&'a Stmt>)
    ensures
        final(out)@ == old(out)@ + stmts_in_expr_props_all(v@, v@.len() as int),
    decreases v, 0int,
{
    let ghost start = out@;
    let mut i: usize = 0;
    assert(out@ =~= start + stmts_in_expr_props_all(v@, 0));
    while i < v.len()
        invariant
            i <= v@.len(),
            out@ == start + stmts_in_expr_props_all(v@, i as int),
        decreases v@.len() - i,
    {
        if let Some(p) = &v[i] {
            each_expr_deep(&p.value, out);
        }
        i += 1;
        assert(out@ =~= start + stmts_in_expr_props_all(v@, i as int));
    }
}

fn each_expr_deep_decls<'a>(v: &'a Vec<Decl>, out: &mut Vec<&'a Stmt>)
    ensures
        final(out)@ == old(out)@ + stmts_in_expr_decls_all(v@, v@.len() as int),
    decreases v, 0int,
{
    let ghost start = out@;
    let mut i: usize = 0;
    assert(out@ =~= start + stmts_in_expr_decls_all(v@, 0));
    while i < v.len()
        invariant
            i <= v@.len(),
            out@ == start + stmts_in_expr_decls_all(v@, i as int),
        decreases v@.len() - i,
    {
        if let Some(x) = &v[i].init {
            each_expr_deep(x, out);
        }
        i += 1;
        assert(out@ =~= start + stmts_in_expr_decls_all(v@, i as int));
    }
}

fn each_stmt_deep_bodies<'a>(v: &'a Vec<Vec<Stmt>>, out: &mut Vec<&'a Stmt>)
    ensures
        final(out)@ == old(out)@ + stmts_in_bodies_all(v@, v@.len() as int),
    decreases v, 0int,
{
    let ghost start = out@;
    let mut i: usize = 0;
    assert(out@ =~= start + stmts_in_bodies_all(v@, 0));
    while i < v.len()
        invariant
            i <= v@.len(),
            out@ == start + stmts_in_bodies_all(v@, i as int),
        decreases v@.len() - i,
    {
        each_stmt_deep_all(&v[i], out);
        i += 1;
        assert(out@ =~= start + stmts_in_bodies_all(v@, i as int));
    }
}

fn each_stmt_deep_cases<'a>(v: &'a Vec<Case>, out: &mut Vec<&'a Stmt>)
    ensures
        final(out)@ == old(out)@ + stmts_in_cases_all(v@, v@.len() as int),
    decreases v, 0int,
{
    let ghost start = out@;
    let mut i: usize = 0;
    assert(out@ =~= start + stmts_in_cases_all(v@, 0));
    while i < v.len()
        invariant
            i <= v@.len(),
            out@ == start + stmts_in_cases_all(v@, i as int),
        decreases v@.len() - i,
    {
        each_stmt_deep_all(&v[i].body, out);
        i += 1;
        assert(out@ =~= start + stmts_in_cases_all(v@, i as int));
    }
}

fn each_stmt_deep_all<'a>(v: &'a Vec<Stmt>, out: &mut Vec<&'a Stmt>)
    ensures
        final(out)@ == old(out)@ + stmts_in_all(v@, v@.len() as int),
    decreases v, 0int,
{
    let ghost start = out@;
    let mut i: usize = 0;
    assert(out@ =~= start + stmts_in_all(v@, 0));
    while i < v.len()
        invariant
            i <= v@.len(),
            out@ == start + stmts_in_all(v@, i as int),
        decreases v@.len() - i,
    {
        each_stmt_deep(&v[i], out);
        i += 1;
        assert(out@ =~= start + stmts_in_all(v@, i as int));
    }
}

/// Appends a statement and all statements inside it.
pub fn each_stmt_deep<'a>(s: &'a Stmt, out: &mut Vec<&'a Stmt>)
    ensures
        final(out)@ == old(out)@ + stmts_in(s),
    decreases s, 0int,
{
    let ghost start = out@;
    out.push(s);
    match s {
        Stmt::Value(x) | Stmt::Throw(x) => each_expr_deep(x, out),
        Stmt::Vars(v) => each_expr_deep_decls(v, out),
        Stmt::Func(f) => {
            if let Some(b) = &f.body {
                each_stmt_deep_all(b, out);
            }
        },
        Stmt::Return(x) => {
            if let Some(x) = x {
                each_expr_deep(x, out);
            }
        },
        Stmt::If { yes, no, .. } => {
            each_stmt_deep(yes, out);
            if let Some(x) = no {
                each_stmt_deep(x, out);
            }
        },
        Stmt::While { body, .. } => each_stmt_deep(body, out),
        Stmt::DoWhile { body, .. } => each_stmt_deep(body, out),
        Stmt::For { body, .. } => each_stmt_deep(body, out),
        Stmt::ForOf { body, .. } | Stmt::ForIn { body, .. } => each_stmt_deep(body, out),
        Stmt::Block(b) => each_stmt_deep_all(b, out),
        Stmt::Try { block, handler, finalizer } => {
            each_stmt_deep_all(block, out);
            if let Some(h) = handler {
                each_stmt_deep_all(&h.body, out);
            }
            if let Some(b) = finalizer {
                each_stmt_deep_all(b, out);
            }
        },
        Stmt::Switch { cases, .. } => each_stmt_deep_cases(cases, out),
        Stmt::Labeled { body: x, .. } => each_stmt_deep(x, out),
        Stmt::Class(c) => each_stmt_deep_bodies(&c.bodies, out),
        _ => {},
    }
    assert(out@ =~= start + stmts_in(s));
}

} // verus!
