//! The JavaScript syntax tree that the pipeline works on.
//!
//! It keeps of a program what the analyses read: names, literals, operators as
//! they are written, and the source offsets that are compared or reported.
use vstd::prelude::*;

verus! {

/// An expression. `text`, or the last part of one whose parts have no names, is how the
/// parser shows it; the kinds that a checksum is made of go without.
pub enum Expr {
    /// A number, as the bits of its binary64 value.
    Num(u64),
    Str { value: String, at: u32, text: String },
    Bool(bool, String),
    Null(String),
    This(String),
    Ident(String, String),
    Member { obj: Box<Expr>, prop: String, text: String },
    Index { obj: Box<Expr>, idx: Box<Expr>, text: String },
    /// `None` among the arguments stands for a spread.
    Call { callee: Box<Expr>, args: Vec<Option<Expr>>, at: u32 },
    New { callee: Box<Expr>, args: Vec<Option<Expr>>, at: u32, text: String },
    Unary { op: &'static str, arg: Box<Expr> },
    /// `target` is `None` where it is not a plain name.
    Update { op: &'static str, target: Option<String>, text: String },
    Binary { op: &'static str, l: Box<Expr>, r: Box<Expr> },
    Logical { op: &'static str, l: Box<Expr>, r: Box<Expr>, text: String },
    Cond { test: Box<Expr>, yes: Box<Expr>, no: Box<Expr>, text: String },
    Assign { op: &'static str, target: Target, value: Box<Expr>, text: String },
    Sequence(Vec<Expr>, String),
    /// `None` stands for a spread or a hole.
    Array(Vec<Option<Expr>>, String),
    /// `None` stands for a spread.
    Object(Vec<Option<Prop>>, String),
    Await { arg: Box<Expr>, at: u32, text: String },
    Func(Func, String),
    Arrow { params: Vec<Option<String>>, body: ArrowBody, start: u32, end: u32, text: String },
    Class(ClassDef, String),
    Paren(Box<Expr>),
    Template { parts: Vec<Expr>, at: u32, text: String },
    /// Anything else.
    Other { text: String, at: u32 },
}

/// What an assignment writes to.
pub enum Target {
    Ident(String),
    Member { obj: Box<Expr>, prop: String },
    Index { obj: Box<Expr>, idx: Box<Expr> },
    Other,
}

/// A property of an object literal.
pub struct Prop {
    pub key: Key,
    pub value: Expr,
}

/// The key of a property.
pub enum Key {
    /// A plain name.
    Name(String),
    /// A literal or a computed key.
    Expr(Expr),
    Other,
}

/// A function with a body of statements.
pub struct Func {
    pub name: Option<String>,
    /// `None` stands for a pattern.
    pub params: Vec<Option<String>>,
    pub body: Option<Vec<Stmt>>,
    pub start: u32,
    pub end: u32,
}

/// The body of an arrow function.
pub enum ArrowBody {
    Value(Box<Expr>),
    Block(Vec<Stmt>),
}

/// A class: its name, what it extends, and the statements of each of its
/// methods and static blocks.
pub struct ClassDef {
    pub name: Option<String>,
    pub parent: Option<Box<Expr>>,
    pub bodies: Vec<Vec<Stmt>>,
}

/// One declared variable; `name` is `None` for a pattern.
pub struct Decl {
    pub name: Option<String>,
    pub init: Option<Expr>,
}

/// The first part of a `for` head.
pub enum ForInit {
    Empty,
    Vars(Vec<Decl>),
    Value(Expr),
}

/// One case of a `switch`.
pub struct Case {
    pub test: Option<Expr>,
    pub body: Vec<Stmt>,
}

/// The `catch` part of a `try`.
pub struct Handler {
    pub param: Option<String>,
    pub body: Vec<Stmt>,
}

/// A statement.
pub enum Stmt {
    Value(Expr),
    Vars(Vec<Decl>),
    Func(Func),
    Return(Option<Expr>),
    Block(Vec<Stmt>),
    If { test: Expr, yes: Box<Stmt>, no: Option<Box<Stmt>> },
    While { test: Expr, body: Box<Stmt> },
    DoWhile { body: Box<Stmt>, test: Expr, at: u32 },
    For { init: ForInit, test: Option<Expr>, update: Option<Expr>, body: Box<Stmt> },
    ForOf { right: Expr, body: Box<Stmt>, at: u32 },
    ForIn { right: Expr, body: Box<Stmt>, at: u32 },
    Try { block: Vec<Stmt>, handler: Option<Handler>, finalizer: Option<Vec<Stmt>> },
    Throw(Expr),
    Break,
    Class(ClassDef),
    Switch { on: Expr, cases: Vec<Case>, at: u32 },
    Labeled { body: Box<Stmt>, at: u32 },
    /// Anything else, with its offset.
    Other(u32),
}

} // verus!
