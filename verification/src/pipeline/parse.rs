//! From source text to syntax tree, by the parser of `oxc`.
//!
//! One function calls the parser; those at the end move the fields of its tree, node
//! by node, into the types of [`crate::pipeline::syntax`].
use std::io::Write as _;

use oxc_ast::ast;
use oxc_span::GetSpan;
use vstd::prelude::*;

#[allow(unused_imports)]
use crate::pipeline::sx::texts;
use crate::pipeline::syntax::{ArrowBody, Case, ClassDef, Decl, Expr, ForInit, Func, Handler, Key, Prop, Stmt, Target};

verus! {

/// `oxc_ast::ast::Expression`.
#[verifier::external_type_specification]
#[verifier::external_body]
pub struct ExExpression<'a>(ast::Expression<'a>);

/// `oxc_ast::ast::Statement`.
#[verifier::external_type_specification]
#[verifier::external_body]
pub struct ExStatement<'a>(ast::Statement<'a>);

/// `oxc_ast::ast::Argument`.
#[verifier::external_type_specification]
#[verifier::external_body]
pub struct ExArgument<'a>(ast::Argument<'a>);

/// `oxc_ast::ast::ArrayExpressionElement`.
#[verifier::external_type_specification]
#[verifier::external_body]
pub struct ExElement<'a>(ast::ArrayExpressionElement<'a>);

/// `oxc_ast::ast::ObjectPropertyKind`.
#[verifier::external_type_specification]
#[verifier::external_body]
pub struct ExPropertyKind<'a>(ast::ObjectPropertyKind<'a>);

/// `oxc_ast::ast::PropertyKey`.
#[verifier::external_type_specification]
#[verifier::external_body]
pub struct ExPropertyKey<'a>(ast::PropertyKey<'a>);

/// `oxc_ast::ast::AssignmentTarget`.
#[verifier::external_type_specification]
#[verifier::external_body]
pub struct ExAssignmentTarget<'a>(ast::AssignmentTarget<'a>);

/// `oxc_ast::ast::SimpleAssignmentTarget`.
#[verifier::external_type_specification]
#[verifier::external_body]
pub struct ExSimpleAssignmentTarget<'a>(ast::SimpleAssignmentTarget<'a>);

/// `oxc_ast::ast::BindingPattern`.
#[verifier::external_type_specification]
#[verifier::external_body]
pub struct ExBindingPattern<'a>(ast::BindingPattern<'a>);

/// `oxc_ast::ast::Function`.
#[verifier::external_type_specification]
#[verifier::external_body]
pub struct ExFunction<'a>(ast::Function<'a>);

/// `oxc_ast::ast::FormalParameters`.
#[verifier::external_type_specification]
#[verifier::external_body]
pub struct ExFormalParameters<'a>(ast::FormalParameters<'a>);

/// `oxc_ast::ast::ArrowFunctionExpression`.
#[verifier::external_type_specification]
#[verifier::external_body]
pub struct ExArrow<'a>(ast::ArrowFunctionExpression<'a>);

/// `oxc_ast::ast::Class`.
#[verifier::external_type_specification]
#[verifier::external_body]
pub struct ExClass<'a>(ast::Class<'a>);

/// `oxc_ast::ast::ClassElement`.
#[verifier::external_type_specification]
#[verifier::external_body]
pub struct ExClassElement<'a>(ast::ClassElement<'a>);

/// `oxc_ast::ast::VariableDeclaration`.
#[verifier::external_type_specification]
#[verifier::external_body]
pub struct ExVariableDeclaration<'a>(ast::VariableDeclaration<'a>);

/// `oxc_ast::ast::ForStatementInit`.
#[verifier::external_type_specification]
#[verifier::external_body]
pub struct ExForStatementInit<'a>(ast::ForStatementInit<'a>);

/// `oxc_ast::ast::TryStatement`.
#[verifier::external_type_specification]
#[verifier::external_body]
pub struct ExTryStatement<'a>(ast::TryStatement<'a>);

/// `oxc_ast::ast::SwitchCase`.
#[verifier::external_type_specification]
#[verifier::external_body]
pub struct ExSwitchCase<'a>(ast::SwitchCase<'a>);

/// The statements that the parser makes of a source text, with up to `room` bytes of
/// how it shows each expression, or its diagnostics where it gave up.
pub uninterp spec fn syntax_tree(src: Seq<char>, room: u16) -> Result<Seq<Stmt>, Seq<Seq<char>>>;

/// `oxc_parser::Parser::parse` with the default source type: the statements of the
/// program, with up to `room` bytes of the `Debug` text of each expression, or, where the
/// parser gave up, the texts of its diagnostics. Both are functions of the source and of
/// `room`, named by `syntax_tree`.
#[verifier::external_body]
fn parse_source(src: &str, room: u16) -> (r: Result<Vec<Stmt>, Vec<String>>)
    ensures
        match r {
            Ok(v) => syntax_tree(src@, room) == Ok::<Seq<Stmt>, Seq<Seq<char>>>(v@),
            Err(e) => syntax_tree(src@, room) == Err::<Seq<Stmt>, Seq<Seq<char>>>(texts(e@)),
        },
{
    let allocator = oxc_allocator::Allocator::default();
    let ret = oxc_parser::Parser::new(&allocator, src, oxc_span::SourceType::default()).parse();
    if ret.panicked {
        return Err(ret.diagnostics.iter().map(|d| d.to_string()).collect());
    }
    Ok(ret.program.body.iter().map(|s| stmt(s, room)).collect())
}

/// The first `n` texts, with `"; "` between them.
pub open spec fn joined(v: Seq<Seq<char>>, n: int) -> Seq<char>
    decreases n,
{
    if n <= 0 || n > v.len() {
        seq![]
    } else if n == 1 {
        v[0]
    } else {
        joined(v, n - 1) + "; "@ + v[n - 1]
    }
}

/// What is reported of the diagnostics of a parser: the first three of them.
pub open spec fn reported(v: Seq<Seq<char>>) -> Seq<char> {
    joined(v, if v.len() < 3 { v.len() as int } else { 3 })
}

/// The statements of a source text, or what the parser reports.
pub open spec fn parsed(src: Seq<char>, room: u16) -> Result<Seq<Stmt>, Seq<char>> {
    match syntax_tree(src, room) {
        Ok(v) => Ok(v),
        Err(e) => Err(reported(e)),
    }
}

/// Parses a source text; `room` is how many bytes are kept of how the parser shows an
/// expression.
pub fn parse(src: &str, room: u16) -> (r: Result<Vec<Stmt>, String>)
    ensures
        match parsed(src@, room) {
            Ok(v) => r matches Ok(w) && w@ == v,
            Err(e) => r matches Err(m) && m@ == e,
        },
{
    match parse_source(src, room) {
        Ok(v) => Ok(v),
        Err(e) => Err(report(&e)),
    }
}

/// Writes what is reported of some diagnostics.
pub fn report(v: &Vec<String>) -> (s: String)
    ensures
        s@ == reported(texts(v@)),
{
    let ghost t = texts(v@);
    let n: usize = if v.len() < 3 { v.len() } else { 3 };
    let mut s = String::new();
    let mut i: usize = 0;
    assert(s@ =~= joined(t, 0));
    while i < n
        invariant
            i <= n <= v@.len(),
            t == texts(v@),
            s@ == joined(t, i as int),
        decreases n - i,
    {
        if i > 0 {
            s.push_str("; ");
        }
        s.push_str(v[i].as_str());
        i += 1;
        assert(t[i - 1] == v@[i - 1]@);
        assert(s@ =~= joined(t, i as int));
    }
    s
}

/// The `Debug` text of an `oxc_ast::ast::Expression`, as much of it as `room` bytes hold.
#[verifier::external_body]
fn text(e: &ast::Expression<'_>, room: u16) -> String {
    let mut out = std::io::Cursor::new(vec![0u8; usize::from(room)].into_boxed_slice());
    let _ = write!(out, "{e:?}");
    let end = out.position() as usize;
    String::from_utf8_lossy(&out.get_ref()[..end]).into_owned()
}

/// Moves an expression.
#[verifier::external_body]
fn expr(e: &ast::Expression<'_>, room: u16) -> Expr {
    literal(e, room)
        .or_else(|| access(e, room))
        .or_else(|| call(e, room))
        .or_else(|| unary(e, room))
        .or_else(|| binary(e, room))
        .or_else(|| choice(e, room))
        .or_else(|| list(e, room))
        .or_else(|| collection(e, room))
        .or_else(|| definition(e, room))
        .unwrap_or_else(|| Expr::Other { text: text(e, room), at: e.span().start })
}

/// Moves the literals and names.
#[verifier::external_body]
fn literal(e: &ast::Expression<'_>, room: u16) -> Option<Expr> {
    match e {
        ast::Expression::NumericLiteral(n) => Some(Expr::Num(n.value.to_bits())),
        ast::Expression::StringLiteral(s) => {
            Some(Expr::Str { value: s.value.to_string(), at: s.span.start, text: text(e, room) })
        },
        ast::Expression::BooleanLiteral(b) => Some(Expr::Bool(b.value, text(e, room))),
        ast::Expression::NullLiteral(_) => Some(Expr::Null(text(e, room))),
        ast::Expression::ThisExpression(_) => Some(Expr::This(text(e, room))),
        ast::Expression::Identifier(i) => Some(Expr::Ident(i.name.to_string(), text(e, room))),
        _ => None,
    }
}

/// Moves member accesses.
#[verifier::external_body]
fn access(e: &ast::Expression<'_>, room: u16) -> Option<Expr> {
    Some(match e {
        ast::Expression::StaticMemberExpression(m) => {
            Expr::Member { obj: boxed(&m.object, room), prop: m.property.name.to_string(), text: text(e, room) }
        },
        ast::Expression::ComputedMemberExpression(m) => {
            Expr::Index { obj: boxed(&m.object, room), idx: boxed(&m.expression, room), text: text(e, room) }
        },
        _ => return None,
    })
}

/// Moves calls.
#[verifier::external_body]
fn call(e: &ast::Expression<'_>, room: u16) -> Option<Expr> {
    Some(match e {
        ast::Expression::CallExpression(c) => {
            Expr::Call { callee: boxed(&c.callee, room), args: arguments(&c.arguments, room), at: c.span.start }
        },
        ast::Expression::NewExpression(c) => {
            let args = arguments(&c.arguments, room);
            Expr::New { callee: boxed(&c.callee, room), args, at: c.span.start, text: text(e, room) }
        },
        _ => return None,
    })
}

/// Moves what has one operand.
#[verifier::external_body]
fn unary(e: &ast::Expression<'_>, room: u16) -> Option<Expr> {
    Some(match e {
        ast::Expression::UnaryExpression(u) => {
            Expr::Unary { op: u.operator.as_str(), arg: boxed(&u.argument, room) }
        },
        ast::Expression::UpdateExpression(u) => {
            Expr::Update { op: u.operator.as_str(), target: updated(&u.argument), text: text(e, room) }
        },
        ast::Expression::AwaitExpression(a) => {
            Expr::Await { arg: boxed(&a.argument, room), at: a.span.start, text: text(e, room) }
        },
        ast::Expression::ParenthesizedExpression(p) => Expr::Paren(boxed(&p.expression, room)),
        _ => return None,
    })
}

/// Moves the binary and logical operations.
#[verifier::external_body]
fn binary(e: &ast::Expression<'_>, room: u16) -> Option<Expr> {
    Some(match e {
        ast::Expression::BinaryExpression(b) => {
            Expr::Binary { op: b.operator.as_str(), l: boxed(&b.left, room), r: boxed(&b.right, room) }
        },
        ast::Expression::LogicalExpression(b) => {
            let (l, r) = (boxed(&b.left, room), boxed(&b.right, room));
            Expr::Logical { op: b.operator.as_str(), l, r, text: text(e, room) }
        },
        _ => return None,
    })
}

/// Moves conditionals and assignments.
#[verifier::external_body]
fn choice(e: &ast::Expression<'_>, room: u16) -> Option<Expr> {
    Some(match e {
        ast::Expression::ConditionalExpression(c) => {
            let (yes, no) = (boxed(&c.consequent, room), boxed(&c.alternate, room));
            Expr::Cond { test: boxed(&c.test, room), yes, no, text: text(e, room) }
        },
        ast::Expression::AssignmentExpression(a) => {
            let (target, value) = (target(&a.left, room), boxed(&a.right, room));
            Expr::Assign { op: a.operator.as_str(), target, value, text: text(e, room) }
        },
        _ => return None,
    })
}

/// Moves what holds a list of expressions.
#[verifier::external_body]
fn list(e: &ast::Expression<'_>, room: u16) -> Option<Expr> {
    Some(match e {
        ast::Expression::SequenceExpression(s) => {
            Expr::Sequence(s.expressions.iter().map(|x| expr(x, room)).collect(), text(e, room))
        },
        ast::Expression::TemplateLiteral(t) => {
            let parts = t.expressions.iter().map(|x| expr(x, room)).collect();
            Expr::Template { parts, at: t.span.start, text: text(e, room) }
        },
        _ => return None,
    })
}

/// Moves the literals of arrays and objects.
#[verifier::external_body]
fn collection(e: &ast::Expression<'_>, room: u16) -> Option<Expr> {
    Some(match e {
        ast::Expression::ArrayExpression(a) => {
            Expr::Array(a.elements.iter().map(|x| element(x, room)).collect(), text(e, room))
        },
        ast::Expression::ObjectExpression(o) => {
            Expr::Object(o.properties.iter().map(|x| property(x, room)).collect(), text(e, room))
        },
        _ => return None,
    })
}

/// Moves functions and classes.
#[verifier::external_body]
fn definition(e: &ast::Expression<'_>, room: u16) -> Option<Expr> {
    Some(match e {
        ast::Expression::FunctionExpression(f) => Expr::Func(function(f, room), text(e, room)),
        ast::Expression::ArrowFunctionExpression(a) => arrow(a, text(e, room), room),
        ast::Expression::ClassExpression(c) => Expr::Class(class(c, room), text(e, room)),
        _ => return None,
    })
}

/// Moves an expression into a box.
#[verifier::external_body]
fn boxed(e: &ast::Expression<'_>, room: u16) -> Box<Expr> {
    Box::new(expr(e, room))
}

/// Moves call arguments; a spread becomes `None`.
#[verifier::external_body]
fn arguments(args: &[ast::Argument<'_>], room: u16) -> Vec<Option<Expr>> {
    args.iter().map(|a| a.as_expression().map(|x| expr(x, room))).collect()
}

/// Moves an array element; a spread or a hole becomes `None`.
#[verifier::external_body]
fn element(e: &ast::ArrayExpressionElement<'_>, room: u16) -> Option<Expr> {
    e.as_expression().map(|x| expr(x, room))
}

/// Moves an object property; a spread becomes `None`.
#[verifier::external_body]
fn property(p: &ast::ObjectPropertyKind<'_>, room: u16) -> Option<Prop> {
    match p {
        ast::ObjectPropertyKind::ObjectProperty(p) => Some(Prop { key: key(&p.key, room), value: expr(&p.value, room) }),
        ast::ObjectPropertyKind::SpreadProperty(_) => None,
    }
}

/// Moves a property key.
#[verifier::external_body]
fn key(k: &ast::PropertyKey<'_>, room: u16) -> Key {
    match k {
        ast::PropertyKey::StaticIdentifier(i) => Key::Name(i.name.to_string()),
        ast::PropertyKey::PrivateIdentifier(_) => Key::Other,
        k => k.as_expression().map(|x| expr(x, room)).map_or(Key::Other, Key::Expr),
    }
}

/// Moves the target of an assignment.
#[verifier::external_body]
fn target(t: &ast::AssignmentTarget<'_>, room: u16) -> Target {
    match t {
        ast::AssignmentTarget::AssignmentTargetIdentifier(i) => Target::Ident(i.name.to_string()),
        ast::AssignmentTarget::StaticMemberExpression(m) => {
            Target::Member { obj: boxed(&m.object, room), prop: m.property.name.to_string() }
        },
        ast::AssignmentTarget::ComputedMemberExpression(m) => {
            Target::Index { obj: boxed(&m.object, room), idx: boxed(&m.expression, room) }
        },
        _ => Target::Other,
    }
}

/// Moves the name that an update writes to; anything else becomes `None`.
#[verifier::external_body]
fn updated(t: &ast::SimpleAssignmentTarget<'_>) -> Option<String> {
    match t {
        ast::SimpleAssignmentTarget::AssignmentTargetIdentifier(i) => Some(i.name.to_string()),
        _ => None,
    }
}

/// Moves a binding; a pattern becomes `None`.
#[verifier::external_body]
fn binding(p: &ast::BindingPattern<'_>) -> Option<String> {
    match p {
        ast::BindingPattern::BindingIdentifier(b) => Some(b.name.to_string()),
        _ => None,
    }
}

/// Moves formal parameters.
#[verifier::external_body]
fn parameters(p: &ast::FormalParameters<'_>) -> Vec<Option<String>> {
    p.items.iter().map(|i| binding(&i.pattern)).collect()
}

/// Moves a function.
#[verifier::external_body]
fn function(f: &ast::Function<'_>, room: u16) -> Func {
    Func {
        name: f.id.as_ref().map(|i| i.name.to_string()),
        params: parameters(&f.params),
        body: f.body.as_ref().map(|b| stmts(&b.statements, room)),
        start: f.span.start,
        end: f.span.end,
    }
}

/// Moves an arrow function.
#[verifier::external_body]
fn arrow(a: &ast::ArrowFunctionExpression<'_>, text: String, room: u16) -> Expr {
    let body = match &a.body {
        ast::ArrowFunctionBody::FunctionBody(b) => ArrowBody::Block(stmts(&b.statements, room)),
        b => b.as_expression().map_or(ArrowBody::Block(Vec::new()), |e| ArrowBody::Value(boxed(e, room))),
    };
    Expr::Arrow { params: parameters(&a.params), body, start: a.span.start, end: a.span.end, text }
}

/// Moves a class.
#[verifier::external_body]
fn class(c: &ast::Class<'_>, room: u16) -> ClassDef {
    ClassDef {
        name: c.id.as_ref().map(|i| i.name.to_string()),
        parent: c.super_class.as_ref().map(|x| boxed(x, room)),
        bodies: c.body.body.iter().map(|x| class_element(x, room)).collect(),
    }
}

/// Moves the statements of a class element.
#[verifier::external_body]
fn class_element(e: &ast::ClassElement<'_>, room: u16) -> Vec<Stmt> {
    match e {
        ast::ClassElement::MethodDefinition(m) => {
            m.value.body.as_ref().map_or(Vec::new(), |b| stmts(&b.statements, room))
        },
        ast::ClassElement::StaticBlock(b) => stmts(&b.body, room),
        _ => Vec::new(),
    }
}

/// Moves a list of statements.
#[verifier::external_body]
fn stmts(body: &[ast::Statement<'_>], room: u16) -> Vec<Stmt> {
    body.iter().map(|x| stmt(x, room)).collect()
}

/// Moves a statement.
#[verifier::external_body]
fn stmt(s: &ast::Statement<'_>, room: u16) -> Stmt {
    simple(s, room)
        .or_else(|| branch(s, room))
        .or_else(|| repeat(s, room))
        .or_else(|| nested(s, room))
        .unwrap_or(Stmt::Other(s.span().start))
}

/// Moves a statement into a box.
#[verifier::external_body]
fn boxed_stmt(s: &ast::Statement<'_>, room: u16) -> Box<Stmt> {
    Box::new(stmt(s, room))
}

/// Moves the statements without statements inside, and the definitions.
#[verifier::external_body]
fn simple(s: &ast::Statement<'_>, room: u16) -> Option<Stmt> {
    Some(match s {
        ast::Statement::ExpressionStatement(e) => Stmt::Value(expr(&e.expression, room)),
        ast::Statement::VariableDeclaration(v) => Stmt::Vars(declarations(v, room)),
        ast::Statement::ReturnStatement(r) => Stmt::Return(r.argument.as_ref().map(|x| expr(x, room))),
        ast::Statement::ThrowStatement(t) => Stmt::Throw(expr(&t.argument, room)),
        ast::Statement::BreakStatement(_) => Stmt::Break,
        ast::Statement::FunctionDeclaration(f) => Stmt::Func(function(f, room)),
        ast::Statement::ClassDeclaration(c) => Stmt::Class(class(c, room)),
        _ => return None,
    })
}

/// Moves blocks, `if`, `switch` and labels.
#[verifier::external_body]
fn branch(s: &ast::Statement<'_>, room: u16) -> Option<Stmt> {
    Some(match s {
        ast::Statement::BlockStatement(b) => Stmt::Block(stmts(&b.body, room)),
        ast::Statement::IfStatement(i) => {
            Stmt::If { test: expr(&i.test, room), yes: boxed_stmt(&i.consequent, room), no: i.alternate.as_ref().map(|x| boxed_stmt(x, room)) }
        },
        ast::Statement::SwitchStatement(w) => {
            Stmt::Switch { on: expr(&w.discriminant, room), cases: w.cases.iter().map(|x| case(x, room)).collect(), at: w.span.start }
        },
        ast::Statement::LabeledStatement(l) => Stmt::Labeled { body: boxed_stmt(&l.body, room), at: l.span.start },
        _ => return None,
    })
}

/// Moves the loops but the plain `for`.
#[verifier::external_body]
fn repeat(s: &ast::Statement<'_>, room: u16) -> Option<Stmt> {
    Some(match s {
        ast::Statement::WhileStatement(w) => Stmt::While { test: expr(&w.test, room), body: boxed_stmt(&w.body, room) },
        ast::Statement::DoWhileStatement(w) => {
            Stmt::DoWhile { body: boxed_stmt(&w.body, room), test: expr(&w.test, room), at: w.span.start }
        },
        ast::Statement::ForOfStatement(f) => {
            Stmt::ForOf { right: expr(&f.right, room), body: boxed_stmt(&f.body, room), at: f.span.start }
        },
        ast::Statement::ForInStatement(f) => {
            Stmt::ForIn { right: expr(&f.right, room), body: boxed_stmt(&f.body, room), at: f.span.start }
        },
        _ => return None,
    })
}

/// Moves the plain `for` and `try`.
#[verifier::external_body]
fn nested(s: &ast::Statement<'_>, room: u16) -> Option<Stmt> {
    Some(match s {
        ast::Statement::ForStatement(f) => {
            Stmt::For {
                init: f.init.as_ref().map_or(ForInit::Empty, |x| for_init(x, room)),
                test: f.test.as_ref().map(|x| expr(x, room)),
                update: f.update.as_ref().map(|x| expr(x, room)),
                body: boxed_stmt(&f.body, room),
            }
        },
        ast::Statement::TryStatement(t) => attempt(t, room),
        _ => return None,
    })
}

/// Moves a `try` statement.
#[verifier::external_body]
fn attempt(t: &ast::TryStatement<'_>, room: u16) -> Stmt {
    Stmt::Try {
        block: stmts(&t.block.body, room),
        handler: t.handler.as_ref().map(
            |h| Handler { param: h.param.as_ref().and_then(|p| binding(&p.pattern)), body: stmts(&h.body.body, room) },
        ),
        finalizer: t.finalizer.as_ref().map(|b| stmts(&b.body, room)),
    }
}

/// Moves the first part of a `for` head.
#[verifier::external_body]
fn for_init(i: &ast::ForStatementInit<'_>, room: u16) -> ForInit {
    match i {
        ast::ForStatementInit::VariableDeclaration(v) => ForInit::Vars(declarations(v, room)),
        i => i.as_expression().map(|x| expr(x, room)).map_or(ForInit::Empty, ForInit::Value),
    }
}

/// Moves a case of a `switch`.
#[verifier::external_body]
fn case(c: &ast::SwitchCase<'_>, room: u16) -> Case {
    Case { test: c.test.as_ref().map(|x| expr(x, room)), body: stmts(&c.consequent, room) }
}

/// Moves declared variables.
#[verifier::external_body]
fn declarations(v: &ast::VariableDeclaration<'_>, room: u16) -> Vec<Decl> {
    v.declarations.iter().map(|d| Decl { name: binding(&d.id), init: d.init.as_ref().map(|x| expr(x, room)) }).collect()
}

} // verus!
