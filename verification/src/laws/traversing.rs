//! Walking through a script comes to every expression and every statement in it, outer ones
//! before inner ones and earlier ones before later ones.
use vstd::prelude::*;

#[allow(unused_imports)]
use crate::pipeline::flow::{sum_exprs, sum_exprs_all, sum_exprs_args};
#[allow(unused_imports)]
use crate::pipeline::syntax::{Case, Decl, Expr, Func, Prop, Stmt};
#[allow(unused_imports)]
use crate::pipeline::walk::{
    exprs_in, exprs_in_all, exprs_in_args_all, exprs_in_decls_all, exprs_in_props_all,
    exprs_in_stmt, exprs_in_stmt_all, exprs_in_stmt_bodies_all, exprs_in_stmt_cases_all, stmts_in,
    stmts_in_all, stmts_in_bodies_all, stmts_in_cases_all, stmts_in_expr, stmts_in_expr_all,
    stmts_in_expr_args_all, stmts_in_expr_decls_all, stmts_in_expr_props_all,
};

verus! {

/// The expressions inside an expression: itself, and behind it those of its parts, in the order
/// in which they are written; of an assignment the value comes before what it is assigned to.
pub proof fn lemma_expressions(e: &Expr)
    ensures
        e is Binary ==> exprs_in(e) =~= seq![e] + exprs_in(&*e->Binary_l) + exprs_in(&*e->Binary_r),
        e is Logical ==> exprs_in(e) =~= seq![e] + exprs_in(&*e->Logical_l) + exprs_in(&*e->Logical_r),
        e is Unary ==> exprs_in(e) =~= seq![e] + exprs_in(&*e->Unary_arg),
        e is Await ==> exprs_in(e) =~= seq![e] + exprs_in(&*e->Await_arg),
        e is Paren ==> exprs_in(e) =~= seq![e] + exprs_in(&*e->Paren_0),
        e is Sequence ==> exprs_in(e) =~= seq![e] + exprs_in_all(e->Sequence_0@, e->Sequence_0@.len() as int),
        e is Cond ==> exprs_in(e) =~= seq![e] + exprs_in(&*e->Cond_test) + exprs_in(&*e->Cond_yes) + exprs_in(&*e->Cond_no),
        e is Call ==> exprs_in(e) =~= seq![e] + exprs_in(&*e->Call_callee) + exprs_in_args_all(e->Call_args@, e->Call_args@.len() as int),
        e is New ==> exprs_in(e) =~= seq![e] + exprs_in(&*e->New_callee) + exprs_in_args_all(e->New_args@, e->New_args@.len() as int),
        e is Member ==> exprs_in(e) =~= seq![e] + exprs_in(&*e->Member_obj),
        e is Index ==> exprs_in(e) =~= seq![e] + exprs_in(&*e->Index_obj) + exprs_in(&*e->Index_idx),
        e is Array ==> exprs_in(e) =~= seq![e] + exprs_in_args_all(e->Array_0@, e->Array_0@.len() as int),
        e is Object ==> exprs_in(e) =~= seq![e] + exprs_in_props_all(e->Object_0@, e->Object_0@.len() as int),
        e is Func && e->Func_0.body is Some ==> exprs_in(e) =~= seq![e] + exprs_in_stmt_all(e->Func_0.body->0@, e->Func_0.body->0@.len() as int),
        e is Arrow && e->Arrow_body is Block ==> exprs_in(e) =~= seq![e] + exprs_in_stmt_all(e->Arrow_body->Block_0@, e->Arrow_body->Block_0@.len() as int),
        e is Arrow && e->Arrow_body is Value ==> exprs_in(e) =~= seq![e] + exprs_in(&*e->Arrow_body->Value_0),
        e is Class ==> exprs_in(e) =~= seq![e] + exprs_in_stmt_bodies_all(e->Class_0.bodies@, e->Class_0.bodies@.len() as int),
        e is Assign && e->Assign_target is Ident ==> exprs_in(e) =~= seq![e] + exprs_in(&*e->Assign_value),
        e is Assign && e->Assign_target is Member ==> exprs_in(e) =~= seq![e] + exprs_in(&*e->Assign_value) + exprs_in(&*e->Assign_target->Member_obj),
        e is Assign && e->Assign_target is Index ==> exprs_in(e) =~= seq![e] + exprs_in(&*e->Assign_value) + exprs_in(&*e->Assign_target->Index_obj) + exprs_in(&*e->Assign_target->Index_idx),
        e is Num || e is Str || e is Bool || e is Null || e is This || e is Ident || e is Update ==> exprs_in(e) =~= seq![e],
{
}

/// The statements inside an expression: those of the functions and classes in its parts, in the
/// order in which they are written.
pub proof fn lemma_inner_statements(e: &Expr)
    ensures
        e is Binary ==> stmts_in_expr(e) =~= stmts_in_expr(&*e->Binary_l) + stmts_in_expr(&*e->Binary_r),
        e is Logical ==> stmts_in_expr(e) =~= stmts_in_expr(&*e->Logical_l) + stmts_in_expr(&*e->Logical_r),
        e is Unary ==> stmts_in_expr(e) =~= stmts_in_expr(&*e->Unary_arg),
        e is Await ==> stmts_in_expr(e) =~= stmts_in_expr(&*e->Await_arg),
        e is Paren ==> stmts_in_expr(e) =~= stmts_in_expr(&*e->Paren_0),
        e is Sequence ==> stmts_in_expr(e) =~= stmts_in_expr_all(e->Sequence_0@, e->Sequence_0@.len() as int),
        e is Cond ==> stmts_in_expr(e) =~= stmts_in_expr(&*e->Cond_test) + stmts_in_expr(&*e->Cond_yes) + stmts_in_expr(&*e->Cond_no),
        e is Call ==> stmts_in_expr(e) =~= stmts_in_expr(&*e->Call_callee) + stmts_in_expr_args_all(e->Call_args@, e->Call_args@.len() as int),
        e is New ==> stmts_in_expr(e) =~= stmts_in_expr(&*e->New_callee) + stmts_in_expr_args_all(e->New_args@, e->New_args@.len() as int),
        e is Member ==> stmts_in_expr(e) =~= stmts_in_expr(&*e->Member_obj),
        e is Index ==> stmts_in_expr(e) =~= stmts_in_expr(&*e->Index_obj) + stmts_in_expr(&*e->Index_idx),
        e is Array ==> stmts_in_expr(e) =~= stmts_in_expr_args_all(e->Array_0@, e->Array_0@.len() as int),
        e is Object ==> stmts_in_expr(e) =~= stmts_in_expr_props_all(e->Object_0@, e->Object_0@.len() as int),
        e is Func && e->Func_0.body is Some ==> stmts_in_expr(e) =~= stmts_in_all(e->Func_0.body->0@, e->Func_0.body->0@.len() as int),
        e is Arrow && e->Arrow_body is Block ==> stmts_in_expr(e) =~= stmts_in_all(e->Arrow_body->Block_0@, e->Arrow_body->Block_0@.len() as int),
        e is Arrow && e->Arrow_body is Value ==> stmts_in_expr(e) =~= stmts_in_expr(&*e->Arrow_body->Value_0),
        e is Class ==> stmts_in_expr(e) =~= stmts_in_bodies_all(e->Class_0.bodies@, e->Class_0.bodies@.len() as int),
        e is Assign && e->Assign_target is Ident ==> stmts_in_expr(e) =~= stmts_in_expr(&*e->Assign_value),
        e is Assign && e->Assign_target is Member ==> stmts_in_expr(e) =~= stmts_in_expr(&*e->Assign_value) + stmts_in_expr(&*e->Assign_target->Member_obj),
        e is Assign && e->Assign_target is Index ==> stmts_in_expr(e) =~= stmts_in_expr(&*e->Assign_value) + stmts_in_expr(&*e->Assign_target->Index_obj) + stmts_in_expr(&*e->Assign_target->Index_idx),
        e is Num || e is Str || e is Bool || e is Null || e is This || e is Ident || e is Update ==> stmts_in_expr(e) =~= Seq::<&Stmt>::empty(),
{
}

/// Lists are walked through in their order, and holes in them are passed over.
pub proof fn lemma_expression_lists(
    a: Seq<Expr>,
    b: Seq<Option<Expr>>,
    p: Seq<Option<Prop>>,
    d: Seq<Decl>,
    n: int,
)
    requires
        0 <= n < a.len(),
        n < b.len(),
        n < p.len(),
        n < d.len(),
    ensures
        exprs_in_all(a, 0) =~= Seq::<&Expr>::empty(),
        exprs_in_all(a, n + 1) =~= exprs_in_all(a, n) + exprs_in(&a[n]),
        exprs_in_args_all(b, 0) =~= Seq::<&Expr>::empty(),
        b[n] is Some ==> exprs_in_args_all(b, n + 1) =~= exprs_in_args_all(b, n) + exprs_in(
            &b[n]->0,
        ),
        b[n] is None ==> exprs_in_args_all(b, n + 1) =~= exprs_in_args_all(b, n),
        p[n] is Some ==> exprs_in_props_all(p, n + 1) =~= exprs_in_props_all(p, n) + exprs_in(
            &p[n]->0.value,
        ),
        p[n] is None ==> exprs_in_props_all(p, n + 1) =~= exprs_in_props_all(p, n),
        d[n].init is Some ==> exprs_in_decls_all(d, n + 1) =~= exprs_in_decls_all(d, n) + exprs_in(
            &d[n].init->0,
        ),
        d[n].init is None ==> exprs_in_decls_all(d, n + 1) =~= exprs_in_decls_all(d, n),
{
}

/// Statements, bodies and cases are walked through in their order.
pub proof fn lemma_statement_lists(v: Seq<Stmt>, b: Seq<Vec<Stmt>>, c: Seq<Case>, n: int)
    requires
        0 <= n < v.len(),
        n < b.len(),
        n < c.len(),
    ensures
        exprs_in_stmt_all(v, 0) =~= Seq::<&Expr>::empty(),
        exprs_in_stmt_all(v, n + 1) =~= exprs_in_stmt_all(v, n) + exprs_in_stmt(&v[n]),
        exprs_in_stmt_bodies_all(b, n + 1) =~= exprs_in_stmt_bodies_all(b, n) + exprs_in_stmt_all(
            b[n]@,
            b[n]@.len() as int,
        ),
        c[n].test is Some ==> exprs_in_stmt_cases_all(c, n + 1) =~= exprs_in_stmt_cases_all(c, n)
            + exprs_in(&c[n].test->0) + exprs_in_stmt_all(c[n].body@, c[n].body@.len() as int),
        c[n].test is None ==> exprs_in_stmt_cases_all(c, n + 1) =~= exprs_in_stmt_cases_all(c, n)
            + exprs_in_stmt_all(c[n].body@, c[n].body@.len() as int),
        stmts_in_all(v, 0) =~= Seq::<&Stmt>::empty(),
        stmts_in_all(v, n + 1) =~= stmts_in_all(v, n) + stmts_in(&v[n]),
        stmts_in_bodies_all(b, n + 1) =~= stmts_in_bodies_all(b, n) + stmts_in_all(
            b[n]@,
            b[n]@.len() as int,
        ),
        stmts_in_cases_all(c, n + 1) =~= stmts_in_cases_all(c, n) + stmts_in_all(
            c[n].body@,
            c[n].body@.len() as int,
        ),
{
}

/// The functions inside lists are walked through in the order of the lists.
pub proof fn lemma_inner_lists(
    a: Seq<Expr>,
    b: Seq<Option<Expr>>,
    p: Seq<Option<Prop>>,
    d: Seq<Decl>,
    n: int,
)
    requires
        0 <= n < a.len(),
        n < b.len(),
        n < p.len(),
        n < d.len(),
    ensures
        stmts_in_expr_all(a, n + 1) =~= stmts_in_expr_all(a, n) + stmts_in_expr(&a[n]),
        b[n] is Some ==> stmts_in_expr_args_all(b, n + 1) =~= stmts_in_expr_args_all(b, n)
            + stmts_in_expr(&b[n]->0),
        b[n] is None ==> stmts_in_expr_args_all(b, n + 1) =~= stmts_in_expr_args_all(b, n),
        p[n] is Some ==> stmts_in_expr_props_all(p, n + 1) =~= stmts_in_expr_props_all(p, n)
            + stmts_in_expr(&p[n]->0.value),
        d[n].init is Some ==> stmts_in_expr_decls_all(d, n + 1) =~= stmts_in_expr_decls_all(d, n)
            + stmts_in_expr(&d[n].init->0),
        d[n].init is None ==> stmts_in_expr_decls_all(d, n + 1) =~= stmts_in_expr_decls_all(d, n),
{
}

/// The expressions inside a statement: its own and those of the statements in it, in the order
/// in which they are written.
pub proof fn lemma_statement_expressions(s: &Stmt)
    ensures
        s is Value ==> exprs_in_stmt(s) =~= exprs_in(&s->Value_0),
        s is Vars ==> exprs_in_stmt(s) =~= exprs_in_decls_all(s->Vars_0@, s->Vars_0@.len() as int),
        s is Func && s->Func_0.body is Some ==> exprs_in_stmt(s) =~= exprs_in_stmt_all(s->Func_0.body->0@, s->Func_0.body->0@.len() as int),
        s is Return && s->Return_0 is Some ==> exprs_in_stmt(s) =~= exprs_in(&s->Return_0->0),
        s is Throw ==> exprs_in_stmt(s) =~= exprs_in(&s->Throw_0),
        s is If && s->If_no is None ==> exprs_in_stmt(s) =~= exprs_in(&s->If_test) + exprs_in_stmt(&*s->If_yes),
        s is If && s->If_no is Some ==> exprs_in_stmt(s) =~= exprs_in(&s->If_test) + exprs_in_stmt(&*s->If_yes) + exprs_in_stmt(&*s->If_no->0),
        s is While ==> exprs_in_stmt(s) =~= exprs_in(&s->While_test) + exprs_in_stmt(&*s->While_body),
        s is DoWhile ==> exprs_in_stmt(s) =~= exprs_in_stmt(&*s->DoWhile_body) + exprs_in(&s->DoWhile_test),
        s is ForOf ==> exprs_in_stmt(s) =~= exprs_in(&s->ForOf_right) + exprs_in_stmt(&*s->ForOf_body),
        s is ForIn ==> exprs_in_stmt(s) =~= exprs_in(&s->ForIn_right) + exprs_in_stmt(&*s->ForIn_body),
        s is Block ==> exprs_in_stmt(s) =~= exprs_in_stmt_all(s->Block_0@, s->Block_0@.len() as int),
        s is Labeled ==> exprs_in_stmt(s) =~= exprs_in_stmt(&*s->Labeled_body),
        s is Switch ==> exprs_in_stmt(s) =~= exprs_in(&s->Switch_on) + exprs_in_stmt_cases_all(s->Switch_cases@, s->Switch_cases@.len() as int),
        s is Class ==> exprs_in_stmt(s) =~= exprs_in_stmt_bodies_all(s->Class_0.bodies@, s->Class_0.bodies@.len() as int),
        s is Try && s->Try_handler is Some && s->Try_finalizer is None ==> exprs_in_stmt(s) =~= exprs_in_stmt_all(s->Try_block@, s->Try_block@.len() as int) + exprs_in_stmt_all(s->Try_handler->0.body@, s->Try_handler->0.body@.len() as int),
        s is Try && s->Try_handler is None && s->Try_finalizer is Some ==> exprs_in_stmt(s) =~= exprs_in_stmt_all(s->Try_block@, s->Try_block@.len() as int) + exprs_in_stmt_all(s->Try_finalizer->0@, s->Try_finalizer->0@.len() as int),
        s is Try && s->Try_handler is Some && s->Try_finalizer is Some ==> exprs_in_stmt(s) =~= exprs_in_stmt_all(s->Try_block@, s->Try_block@.len() as int) + exprs_in_stmt_all(s->Try_handler->0.body@, s->Try_handler->0.body@.len() as int) + exprs_in_stmt_all(s->Try_finalizer->0@, s->Try_finalizer->0@.len() as int),
        s is For && s->For_init is Vars && s->For_test is Some && s->For_update is Some ==> exprs_in_stmt(s) =~= exprs_in_decls_all(s->For_init->Vars_0@, s->For_init->Vars_0@.len() as int) + exprs_in(&s->For_test->0) + exprs_in(&s->For_update->0) + exprs_in_stmt(&*s->For_body),
        s is For && !(s->For_init is Vars) && s->For_test is None && s->For_update is None ==> exprs_in_stmt(s) =~= exprs_in_stmt(&*s->For_body),
{
}

/// The statements inside a statement: itself, and behind it those in it, in the order in which
/// they are written; the tests of loops and branches are left out.
pub proof fn lemma_statements(s: &Stmt)
    ensures
        s is Value ==> stmts_in(s) =~= seq![s] + stmts_in_expr(&s->Value_0),
        s is Vars ==> stmts_in(s) =~= seq![s] + stmts_in_expr_decls_all(s->Vars_0@, s->Vars_0@.len() as int),
        s is Func && s->Func_0.body is Some ==> stmts_in(s) =~= seq![s] + stmts_in_all(s->Func_0.body->0@, s->Func_0.body->0@.len() as int),
        s is Return && s->Return_0 is Some ==> stmts_in(s) =~= seq![s] + stmts_in_expr(&s->Return_0->0),
        s is Throw ==> stmts_in(s) =~= seq![s] + stmts_in_expr(&s->Throw_0),
        s is If && s->If_no is None ==> stmts_in(s) =~= seq![s] + stmts_in(&*s->If_yes),
        s is If && s->If_no is Some ==> stmts_in(s) =~= seq![s] + stmts_in(&*s->If_yes) + stmts_in(&*s->If_no->0),
        s is While ==> stmts_in(s) =~= seq![s] + stmts_in(&*s->While_body),
        s is DoWhile ==> stmts_in(s) =~= seq![s] + stmts_in(&*s->DoWhile_body),
        s is ForOf ==> stmts_in(s) =~= seq![s] + stmts_in(&*s->ForOf_body),
        s is ForIn ==> stmts_in(s) =~= seq![s] + stmts_in(&*s->ForIn_body),
        s is Block ==> stmts_in(s) =~= seq![s] + stmts_in_all(s->Block_0@, s->Block_0@.len() as int),
        s is Labeled ==> stmts_in(s) =~= seq![s] + stmts_in(&*s->Labeled_body),
        s is Switch ==> stmts_in(s) =~= seq![s] + stmts_in_cases_all(s->Switch_cases@, s->Switch_cases@.len() as int),
        s is Class ==> stmts_in(s) =~= seq![s] + stmts_in_bodies_all(s->Class_0.bodies@, s->Class_0.bodies@.len() as int),
        s is Try && s->Try_handler is Some && s->Try_finalizer is None ==> stmts_in(s) =~= seq![s] + stmts_in_all(s->Try_block@, s->Try_block@.len() as int) + stmts_in_all(s->Try_handler->0.body@, s->Try_handler->0.body@.len() as int),
        s is Try && s->Try_handler is None && s->Try_finalizer is Some ==> stmts_in(s) =~= seq![s] + stmts_in_all(s->Try_block@, s->Try_block@.len() as int) + stmts_in_all(s->Try_finalizer->0@, s->Try_finalizer->0@.len() as int),
        s is Try && s->Try_handler is Some && s->Try_finalizer is Some ==> stmts_in(s) =~= seq![s] + stmts_in_all(s->Try_block@, s->Try_block@.len() as int) + stmts_in_all(s->Try_handler->0.body@, s->Try_handler->0.body@.len() as int) + stmts_in_all(s->Try_finalizer->0@, s->Try_finalizer->0@.len() as int),
        s is For ==> stmts_in(s) =~= seq![s] + stmts_in(&*s->For_body),
{
}

/// The expressions of a checksum: the whole, and behind it those of its parts, in the order in
/// which they are written.
pub proof fn lemma_checksum_expressions(e: &Expr, a: Seq<Expr>, b: Seq<Option<Expr>>, n: int)
    requires
        0 <= n < a.len(),
        n < b.len(),
    ensures
        e is Binary ==> sum_exprs(e) =~= seq![e] + sum_exprs(&*e->Binary_l) + sum_exprs(&*e->Binary_r),
        e is Logical ==> sum_exprs(e) =~= seq![e] + sum_exprs(&*e->Logical_l) + sum_exprs(&*e->Logical_r),
        e is Unary ==> sum_exprs(e) =~= seq![e] + sum_exprs(&*e->Unary_arg),
        e is Paren ==> sum_exprs(e) =~= seq![e] + sum_exprs(&*e->Paren_0),
        e is Call ==> sum_exprs(e) =~= seq![e] + sum_exprs(&*e->Call_callee) + sum_exprs_args(e->Call_args@, e->Call_args@.len() as int),
        e is Member ==> sum_exprs(e) =~= seq![e] + sum_exprs(&*e->Member_obj),
        e is Index ==> sum_exprs(e) =~= seq![e] + sum_exprs(&*e->Index_obj) + sum_exprs(&*e->Index_idx),
        e is Sequence ==> sum_exprs(e) =~= seq![e] + sum_exprs_all(e->Sequence_0@, e->Sequence_0@.len() as int),
        e is Num || e is Str || e is Ident || e is Func || e is Cond ==> sum_exprs(e) =~= seq![e],
        sum_exprs_all(a, 0) =~= Seq::<&Expr>::empty(),
        sum_exprs_all(a, n + 1) =~= sum_exprs_all(a, n) + sum_exprs(&a[n]),
        b[n] is Some ==> sum_exprs_args(b, n + 1) =~= sum_exprs_args(b, n) + sum_exprs(&b[n]->0),
        b[n] is None ==> sum_exprs_args(b, n + 1) =~= sum_exprs_args(b, n),
{
}

} // verus!
