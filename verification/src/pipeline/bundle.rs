//! Facts that a page's own script gives away: where it raises an error in its
//! challenge code, how it measures time, and which events it reports.
use vstd::prelude::*;
use vstd::utf8::{decode_utf8, encode_utf8, valid_utf8};

use crate::ints::{parse_u64, trim, trimmed, u64_text};
use crate::jsnum::{int64_of, is_zero, to_i64, zero};
use crate::pipeline::parse::{parse, parsed};
use crate::pipeline::statics::{ident_of, name_of};
use crate::pipeline::sx::texts;
use crate::pipeline::syntax::{ArrowBody, Case, Decl, Expr, ForInit, Func, Key, Prop, Stmt, Target};
use crate::pipeline::table::{sub64, wrap64};
use crate::text::{bytes_of, chars_of, find_next, next_at, own, str_eq, string_of, utf8_str};

verus! {

/// Where the challenge code raises an error: the function it is in, the line, and
/// the columns of the error and of the race it takes part in.
pub struct StackFacts {
    pub fname: String,
    pub line: u64,
    pub col_error: u64,
    pub col_race: u64,
}

/// How the challenge code measures time.
pub struct Timing {
    pub timeout_ms: u64,
    pub duration_delta: i64,
    pub macrotask_zero: bool,
}

/// All facts.
pub struct BundleEnv {
    pub stack: Option<StackFacts>,
    pub timing: Timing,
    pub fe_version_ok: bool,
    pub signal_events: Vec<String>,
}

// ------------------------------------------------------------------------- visiting

/// A function around a place in the source.
pub struct Frame {
    pub start: u32,
    pub end: u32,
    pub name: Option<Seq<char>>,
}

/// An expression and the functions around it, the innermost last.
pub struct Visit<'a> {
    pub e: &'a Expr,
    pub frames: Seq<Frame>,
}

/// The frame of a function.
pub open spec fn frame_of(f: Func) -> Frame {
    Frame {
        start: f.start,
        end: f.end,
        name: match f.name {
            Some(n) => Some(n@),
            None => None,
        },
    }
}

/// The expressions inside an expression, itself first, with the functions around
/// them.
pub open spec fn visits<'a>(e: &'a Expr, f: Seq<Frame>) -> Seq<Visit<'a>>
    decreases e, 0int,
{
    seq![Visit { e, frames: f }] + match e {
        Expr::Array(v, _) => visits_items(v@, v@.len() as int, f),
        Expr::Object(v, _) => visits_props(v@, v@.len() as int, f),
        Expr::Call { callee, args, .. } | Expr::New { callee, args, .. } => visits(callee, f)
            + visits_items(args@, args@.len() as int, f),
        Expr::Binary { l, r, .. } | Expr::Logical { l, r, .. } => visits(l, f) + visits(r, f),
        Expr::Unary { arg, .. } | Expr::Await { arg, .. } | Expr::Paren(arg) => visits(arg, f),
        Expr::Assign { target, value, .. } => visits(value, f) + match target {
            Target::Index { obj, idx } => visits(obj, f) + visits(idx, f),
            _ => seq![],
        },
        Expr::Sequence(v, _) => visits_all(v@, v@.len() as int, f),
        Expr::Template { parts, .. } => visits_all(parts@, parts@.len() as int, f),
        Expr::Cond { test, yes, no, .. } => visits(test, f) + visits(yes, f) + visits(no, f),
        Expr::Arrow { body, start, end, .. } => {
            let g = f.push(Frame { start: *start, end: *end, name: None });
            match body {
                ArrowBody::Block(b) => visits_stmts(b@, b@.len() as int, g),
                ArrowBody::Value(x) => visits(x, g),
            }
        },
        Expr::Func(fun, _) => match fun.body {
            Some(b) => visits_stmts(b@, b@.len() as int, f.push(frame_of(*fun))),
            None => seq![],
        },
        Expr::Index { obj, idx, .. } => visits(obj, f) + visits(idx, f),
        Expr::Member { obj, .. } => visits(obj, f),
        _ => seq![],
    }
}

/// The visits of the first `n` expressions.
pub open spec fn visits_all<'a>(v: Seq<Expr>, n: int, f: Seq<Frame>) -> Seq<Visit<'a>>
    decreases v, n,
{
    if n <= 0 || n > v.len() {
        seq![]
    } else {
        visits_all(v, n - 1, f) + visits(&v[n - 1], f)
    }
}

/// The visits of the first `n` items, spreads and holes left out.
pub open spec fn visits_items<'a>(v: Seq<Option<Expr>>, n: int, f: Seq<Frame>) -> Seq<Visit<'a>>
    decreases v, n,
{
    if n <= 0 || n > v.len() {
        seq![]
    } else {
        visits_items(v, n - 1, f) + match v[n - 1] {
            Some(x) => visits(&x, f),
            None => seq![],
        }
    }
}

/// The visits of the first `n` properties, computed keys before their values.
pub open spec fn visits_props<'a>(v: Seq<Option<Prop>>, n: int, f: Seq<Frame>) -> Seq<Visit<'a>>
    decreases v, n,
{
    if n <= 0 || n > v.len() {
        seq![]
    } else {
        visits_props(v, n - 1, f) + match v[n - 1] {
            Some(p) => (match p.key {
                Key::Expr(k) => visits(&k, f),
                _ => seq![],
            }) + visits(&p.value, f),
            None => seq![],
        }
    }
}

/// The visits of the initial values of the first `n` declarations.
pub open spec fn visits_decls<'a>(v: Seq<Decl>, n: int, f: Seq<Frame>) -> Seq<Visit<'a>>
    decreases v, n,
{
    if n <= 0 || n > v.len() {
        seq![]
    } else {
        visits_decls(v, n - 1, f) + match v[n - 1].init {
            Some(x) => visits(&x, f),
            None => seq![],
        }
    }
}

/// The visits of the first `n` cases of a `switch`.
pub open spec fn visits_cases<'a>(v: Seq<Case>, n: int, f: Seq<Frame>) -> Seq<Visit<'a>>
    decreases v, n,
{
    if n <= 0 || n > v.len() {
        seq![]
    } else {
        visits_cases(v, n - 1, f) + match v[n - 1].test {
            Some(x) => visits(&x, f),
            None => seq![],
        } + visits_stmts(v[n - 1].body@, v[n - 1].body@.len() as int, f)
    }
}

/// The visits of the first `n` statements.
pub open spec fn visits_stmts<'a>(v: Seq<Stmt>, n: int, f: Seq<Frame>) -> Seq<Visit<'a>>
    decreases v, n,
{
    if n <= 0 || n > v.len() {
        seq![]
    } else {
        visits_stmts(v, n - 1, f) + visits_stmt(&v[n - 1], f)
    }
}

/// The expressions inside a statement.
pub open spec fn visits_stmt<'a>(s: &'a Stmt, f: Seq<Frame>) -> Seq<Visit<'a>>
    decreases s, 0int,
{
    match s {
        Stmt::Value(x) => visits(x, f),
        Stmt::Vars(v) => visits_decls(v@, v@.len() as int, f),
        Stmt::Func(fun) => match fun.body {
            Some(b) => visits_stmts(b@, b@.len() as int, f.push(frame_of(*fun))),
            None => seq![],
        },
        Stmt::Return(x) => match x {
            Some(x) => visits(x, f),
            None => seq![],
        },
        Stmt::If { test, yes, no } => visits(test, f) + visits_stmt(yes, f) + match no {
            Some(x) => visits_stmt(x, f),
            None => seq![],
        },
        Stmt::While { test, body } => visits(test, f) + visits_stmt(body, f),
        Stmt::DoWhile { body, test, .. } => visits_stmt(body, f) + visits(test, f),
        Stmt::For { init, test, update, body } => {
            (match init {
                ForInit::Vars(v) => visits_decls(v@, v@.len() as int, f),
                _ => seq![],
            }) + match test {
                Some(x) => visits(x, f),
                None => seq![],
            } + match update {
                Some(x) => visits(x, f),
                None => seq![],
            } + visits_stmt(body, f)
        },
        Stmt::ForOf { right, body, .. } | Stmt::ForIn { right, body, .. } => visits(right, f)
            + visits_stmt(body, f),
        Stmt::Block(b) => visits_stmts(b@, b@.len() as int, f),
        Stmt::Try { block, handler, finalizer } => {
            visits_stmts(block@, block@.len() as int, f) + match handler {
                Some(h) => visits_stmts(h.body@, h.body@.len() as int, f),
                None => seq![],
            } + match finalizer {
                Some(b) => visits_stmts(b@, b@.len() as int, f),
                None => seq![],
            }
        },
        Stmt::Switch { on, cases, .. } => visits(on, f) + visits_cases(
            cases@,
            cases@.len() as int,
            f,
        ),
        Stmt::Labeled { body, .. } => visits_stmt(body, f),
        Stmt::Throw(x) => visits(x, f),
        _ => seq![],
    }
}

// ---------------------------------------------------------------------------- facts

/// A place in the source and the functions around it.
pub struct Hit {
    pub at: u32,
    pub frames: Seq<Frame>,
}

/// What the visited expressions have shown.
#[verifier::ext_equal]
pub struct Shown {
    pub timeouts: Seq<Hit>,
    pub errors: Seq<Hit>,
    pub races: Seq<Hit>,
    pub signals: Option<Seq<Seq<char>>>,
    pub be_version: bool,
    pub fe_hash: bool,
    pub tag_attr: bool,
    pub sha_attr: bool,
    pub delta: Option<i64>,
    pub zeros: Seq<u32>,
}

/// A plain name `s`.
pub open spec fn is_named(e: &Expr, s: Seq<char>) -> bool {
    name_of(e) == Some(s)
}

/// The first of a list of arguments, where it is no spread.
pub open spec fn first_arg<'a>(v: Seq<Option<Expr>>) -> Option<&'a Expr> {
    if v.len() > 0 {
        match v[0] {
            Some(x) => Some(&x),
            None => None,
        }
    } else {
        None
    }
}

/// `f(new Error(...), ...)`: where the `new` stands.
pub open spec fn error_at(e: &Expr) -> Option<u32> {
    match e {
        Expr::Call { args, .. } => match first_arg(args@) {
            Some(x) => match x {
                Expr::New { callee, at, .. } => if is_named(callee, "Error"@) {
                    Some(*at)
                } else {
                    None
                },
                _ => None,
            },
            None => None,
        },
        _ => None,
    }
}

/// `String(x - y)`, `String(x - (y + k))`: what is taken off besides `y`.
pub open spec fn duration_delta(e: &Expr) -> Option<i64> {
    match e {
        Expr::Call { callee, args, .. } => if is_named(callee, "String"@) {
            match first_arg(args@) {
                Some(x) => match x {
                    Expr::Binary { op, r, .. } => if op@ == "-"@ {
                        match **r {
                            Expr::Ident(..) => Some(0),
                            Expr::Binary { op: plus, l, r: k } => if plus@ == "+"@ && *l is Ident {
                                match *k {
                                    Expr::Num(n) => Some(int64_of(n)),
                                    Expr::Unary { op: minus, arg } => match *arg {
                                        Expr::Num(n) => if minus@ == "-"@ {
                                            Some(wrap64(-(int64_of(n) as int)))
                                        } else {
                                            None
                                        },
                                        _ => None,
                                    },
                                    _ => None,
                                }
                            } else {
                                None
                            },
                            _ => None,
                        }
                    } else {
                        None
                    },
                    _ => None,
                },
                None => None,
            }
        } else {
            None
        },
        _ => None,
    }
}

/// A key that is written out.
pub open spec fn key_name(k: Key) -> Option<Seq<char>> {
    match k {
        Key::Name(n) => Some(n@),
        Key::Expr(e) => match e {
            Expr::Str { value, .. } => Some(value@),
            _ => None,
        },
        Key::Other => None,
    }
}

/// A text that starts with `dc_`: what follows.
pub open spec fn signal_name(s: Seq<char>) -> Option<Seq<char>> {
    if s.len() >= 3 && s[0] == 'd' && s[1] == 'c' && s[2] == '_' {
        Some(s.subrange(3, s.len() as int))
    } else {
        None
    }
}

/// The signals of the first `n` items of a list, where all are such texts.
pub open spec fn signal_names(v: Seq<Option<Expr>>, n: int) -> Option<Seq<Seq<char>>>
    decreases n,
{
    if n <= 0 || n > v.len() {
        Some(seq![])
    } else {
        match signal_names(v, n - 1) {
            Some(out) => match v[n - 1] {
                Some(Expr::Str { value, .. }) => match signal_name(value@) {
                    Some(s) => Some(out.push(s)),
                    None => None,
                },
                _ => None,
            },
            None => None,
        }
    }
}

/// `new Set([...])` of eight signals or more: their names.
pub open spec fn signal_set(e: &Expr) -> Option<Seq<Seq<char>>> {
    match e {
        Expr::New { callee, args, .. } => if is_named(callee, "Set"@) {
            match first_arg(args@) {
                Some(x) => match x {
                    Expr::Array(v, _) => if v@.len() >= 8 {
                        signal_names(v@, v@.len() as int)
                    } else {
                        None
                    },
                    _ => None,
                },
                None => None,
            }
        } else {
            None
        },
        _ => None,
    }
}

/// `await Promise.race(...)`: where it stands.
pub open spec fn race_at(e: &Expr) -> Option<u32> {
    match e {
        Expr::Await { arg, at, .. } => match **arg {
            Expr::Call { callee, .. } => match *callee {
                Expr::Member { obj, prop, .. } => if prop@ == "race"@ && is_named(&obj, "Promise"@) {
                    Some(*at)
                } else {
                    None
                },
                _ => None,
            },
            _ => None,
        },
        _ => None,
    }
}

/// Two arguments, the second of them a zero.
pub open spec fn zero_delay(args: Seq<Option<Expr>>) -> bool {
    args.len() == 2 && args[1] is Some && args[1]->0 is Num && is_zero(args[1]->0->Num_0)
}

/// `setTimeout(f, 0)`, or the same of `window`: where it stands.
pub open spec fn zero_timeout_at(e: &Expr) -> Option<u32> {
    match e {
        Expr::Call { callee, args, at } => {
            let own = match **callee {
                Expr::Member { obj, prop, .. } => prop@ == "setTimeout"@ && (is_named(
                    &obj,
                    "window"@,
                ) || is_named(&obj, seq![])),
                Expr::Ident(n, _) => n@ == "setTimeout"@,
                _ => false,
            };
            if own && zero_delay(args@) { Some(*at) } else { None }
        },
        _ => None,
    }
}

/// `....getAttribute(..., "name", ...)`.
pub open spec fn asks_attribute(e: &Expr, name: Seq<char>) -> bool {
    match e {
        Expr::Call { callee, args, .. } => match **callee {
            Expr::Member { prop, .. } => prop@ == "getAttribute"@ && exists|i: int|
                0 <= i < args@.len() && is_string(#[trigger] args@[i], name),
            _ => false,
        },
        _ => false,
    }
}

/// The string `s` as an argument.
pub open spec fn is_string(a: Option<Expr>, s: Seq<char>) -> bool {
    a matches Some(Expr::Str { value, .. }) && value@ == s
}

/// `....name`.
pub open spec fn reads_member(e: &Expr, name: Seq<char>) -> bool {
    e matches Expr::Member { prop, .. } && prop@ == name
}

impl Shown {
    /// With a property of an object.
    pub open spec fn with_prop(self, p: Prop, f: Seq<Frame>) -> Shown {
        if key_name(p.key) == Some("stack"@) {
            match error_at(&p.value) {
                Some(at) => Shown { errors: self.errors.push(Hit { at, frames: f }), ..self },
                None => self,
            }
        } else if key_name(p.key) == Some("duration"@) && self.delta is None {
            Shown { delta: duration_delta(&p.value), ..self }
        } else {
            self
        }
    }

    /// With the first `n` properties of an object literal.
    pub open spec fn with_props(self, v: Seq<Option<Prop>>, n: int, f: Seq<Frame>) -> Shown
        decreases n,
    {
        if n <= 0 || n > v.len() {
            self
        } else {
            match v[n - 1] {
                Some(p) => self.with_props(v, n - 1, f).with_prop(p, f),
                None => self.with_props(v, n - 1, f),
            }
        }
    }

    /// With one visited expression.
    pub open spec fn with_visit(self, v: Visit) -> Shown {
        let s = match v.e {
            Expr::Object(p, _) => self.with_props(p@, p@.len() as int, v.frames),
            Expr::Str { value, at, .. } => if value@ == "jsa_evaluation_timeout"@ {
                Shown { timeouts: self.timeouts.push(Hit { at: *at, frames: v.frames }), ..self }
            } else {
                self
            },
            _ => self,
        };
        Shown {
            races: match race_at(v.e) {
                Some(at) => s.races.push(Hit { at, frames: v.frames }),
                None => s.races,
            },
            signals: if s.signals is None { signal_set(v.e) } else { s.signals },
            be_version: s.be_version || reads_member(v.e, "__DDG_BE_VERSION__"@),
            fe_hash: s.fe_hash || reads_member(v.e, "__DDG_FE_CHAT_HASH__"@),
            tag_attr: s.tag_attr || asks_attribute(v.e, "data-version-tag"@),
            sha_attr: s.sha_attr || asks_attribute(v.e, "data-version-sha"@),
            zeros: match zero_timeout_at(v.e) {
                Some(at) => s.zeros.push(at),
                None => s.zeros,
            },
            ..s
        }
    }

    /// With a list of visited expressions.
    pub open spec fn with(self, v: Seq<Visit>) -> Shown
        decreases v.len(),
    {
        if v.len() == 0 { self } else { self.with(v.drop_last()).with_visit(v.last()) }
    }
}

/// Nothing has been visited.
pub open spec fn nothing() -> Shown {
    Shown {
        timeouts: seq![],
        errors: seq![],
        races: seq![],
        signals: None,
        be_version: false,
        fe_hash: false,
        tag_attr: false,
        sha_attr: false,
        delta: None,
        zeros: seq![],
    }
}

broadcast proof fn lemma_with_both(s: Shown, a: Seq<Visit>, b: Seq<Visit>)
    ensures
        #[trigger] s.with(a + b) == s.with(a).with(b),
    decreases b.len(),
{
    if b.len() == 0 {
        assert(a + b =~= a);
    } else {
        assert((a + b).drop_last() =~= a + b.drop_last());
        lemma_with_both(s, a, b.drop_last());
    }
}

broadcast proof fn lemma_with_one(s: Shown, v: Visit)
    ensures
        #[trigger] s.with(seq![v]) == s.with_visit(v),
{
    assert(seq![v].drop_last() =~= seq![]);
    assert(s.with(seq![]) == s);
}

broadcast proof fn lemma_with_none(s: Shown)
    ensures
        #[trigger] s.with(Seq::<Visit>::empty()) == s,
{
}

broadcast group group_with {
    lemma_with_both,
    lemma_with_one,
    lemma_with_none,
}

// -------------------------------------------------------------------------- the walk

struct FnFrame {
    start: u32,
    end: u32,
    name: Option<String>,
}

struct Mark {
    at: u32,
    frames: Vec<FnFrame>,
}

struct Walk {
    fn_stack: Vec<FnFrame>,
    timeout_hits: Vec<Mark>,
    stack_hits: Vec<Mark>,
    race_hits: Vec<Mark>,
    signals: Option<Vec<String>>,
    be_version: bool,
    fe_hash: bool,
    tag_attr: bool,
    sha_attr: bool,
    duration_delta: Option<i64>,
    macrotask_zeros: Vec<u32>,
}

spec fn frame_view(f: FnFrame) -> Frame {
    Frame {
        start: f.start,
        end: f.end,
        name: match f.name {
            Some(n) => Some(n@),
            None => None,
        },
    }
}

spec fn frame_views(v: Seq<FnFrame>) -> Seq<Frame> {
    Seq::new(v.len(), |i: int| frame_view(v[i]))
}

spec fn mark_views(v: Seq<Mark>) -> Seq<Hit> {
    Seq::new(v.len(), |i: int| Hit { at: v[i].at, frames: frame_views(v[i].frames@) })
}

fn copy_name(n: &Option<String>) -> (r: Option<String>)
    ensures
        match *n {
            Some(s) => r matches Some(t) && t@ == s@,
            None => r is None,
        },
{
    match n {
        Some(s) => Some(own(s.as_str())),
        None => None,
    }
}

fn copy_frames(v: &Vec<FnFrame>) -> (r: Vec<FnFrame>)
    ensures
        frame_views(r@) == frame_views(v@),
{
    let mut r: Vec<FnFrame> = Vec::new();
    let mut i: usize = 0;
    while i < v.len()
        invariant
            i <= v@.len(),
            r@.len() == i,
            forall|j: int| 0 <= j < i ==> frame_view(#[trigger] r@[j]) == frame_view(v@[j]),
        decreases v@.len() - i,
    {
        r.push(FnFrame { start: v[i].start, end: v[i].end, name: copy_name(&v[i].name) });
        i += 1;
    }
    assert(frame_views(r@) =~= frame_views(v@));
    r
}

fn named(e: &Expr, s: &str) -> (r: bool)
    ensures
        r == is_named(e, s@),
{
    match ident_of(e) {
        Some(n) => str_eq(n, s),
        None => false,
    }
}

fn leading<'a>(v: &'a Vec<Option<Expr>>) -> (r: Option<&'a Expr>)
    ensures
        r == first_arg(v@),
{
    if v.len() > 0 { v[0].as_ref() } else { None }
}

fn error_place(e: &Expr) -> (r: Option<u32>)
    ensures
        r == error_at(e),
{
    if let Expr::Call { args, .. } = e {
        if let Some(Expr::New { callee, at, .. }) = leading(args) {
            if named(callee, "Error") {
                return Some(*at);
            }
        }
    }
    None
}

fn duration_delta_of(e: &Expr) -> (r: Option<i64>)
    ensures
        r == duration_delta(e),
{
    if let Expr::Call { callee, args, .. } = e {
        if !named(callee, "String") {
            return None;
        }
        if let Some(Expr::Binary { op, r, .. }) = leading(args) {
            if !str_eq(op, "-") {
                return None;
            }
            return match &**r {
                Expr::Ident(..) => Some(0),
                Expr::Binary { op: plus, l, r: k } => {
                    if !str_eq(plus, "+") || ident_of(l).is_none() {
                        return None;
                    }
                    match &**k {
                        Expr::Num(n) => Some(to_i64(*n)),
                        Expr::Unary { op: minus, arg } => match &**arg {
                            Expr::Num(n) => if str_eq(minus, "-") {
                                Some(sub64(0, to_i64(*n)))
                            } else {
                                None
                            },
                            _ => None,
                        },
                        _ => None,
                    }
                },
                _ => None,
            };
        }
    }
    None
}

fn key_text<'a>(k: &'a Key) -> (r: Option<&'a str>)
    ensures
        match key_name(*k) {
            Some(s) => r matches Some(t) && t@ == s,
            None => r is None,
        },
{
    match k {
        Key::Name(n) => Some(n.as_str()),
        Key::Expr(e) => match e {
            Expr::Str { value, .. } => Some(value.as_str()),
            _ => None,
        },
        Key::Other => None,
    }
}

fn signal_of(s: &str) -> (r: Option<String>)
    ensures
        match signal_name(s@) {
            Some(t) => r matches Some(x) && x@ == t,
            None => r is None,
        },
{
    let v = chars_of(s);
    if v.len() >= 3 && v[0] == 'd' && v[1] == 'c' && v[2] == '_' {
        Some(string_of(v.as_slice(), 3, v.len()))
    } else {
        None
    }
}

proof fn lemma_signals_fail(v: Seq<Option<Expr>>, k: int, n: int)
    requires
        0 <= k <= n <= v.len(),
        signal_names(v, k) is None,
    ensures
        signal_names(v, n) is None,
    decreases n,
{
    if k < n {
        lemma_signals_fail(v, k, n - 1);
    }
}

fn signals_of(e: &Expr) -> (r: Option<Vec<String>>)
    ensures
        match signal_set(e) {
            Some(s) => r matches Some(v) && texts(v@) == s,
            None => r is None,
        },
{
    if let Expr::New { callee, args, .. } = e {
        if !named(callee, "Set") {
            return None;
        }
        if let Some(Expr::Array(v, _)) = leading(args) {
            if v.len() < 8 {
                return None;
            }
            let mut out: Vec<String> = Vec::new();
            let mut i: usize = 0;
            assert(texts(out@) =~= seq![]);
            while i < v.len()
                invariant
                    i <= v@.len(),
                    signal_names(v@, i as int) == Some(texts(out@)),
                    v@.len() >= 8,
                    signal_set(e) == signal_names(v@, v@.len() as int),
                decreases v@.len() - i,
            {
                let ghost before = texts(out@);
                proof {
                    if signal_names(v@, i + 1) is None {
                        lemma_signals_fail(v@, i + 1, v@.len() as int);
                    }
                }
                let s = match &v[i] {
                    Some(Expr::Str { value, .. }) => signal_of(value.as_str()),
                    _ => None,
                };
                match s {
                    Some(s) => {
                        out.push(s);
                        assert(texts(out@) =~= before.push(s@));
                    },
                    None => return None,
                }
                i += 1;
            }
            return Some(out);
        }
    }
    None
}

fn race_place(e: &Expr) -> (r: Option<u32>)
    ensures
        r == race_at(e),
{
    if let Expr::Await { arg, at, .. } = e {
        if let Expr::Call { callee, .. } = &**arg {
            if let Expr::Member { obj, prop, .. } = &**callee {
                if str_eq(prop.as_str(), "race") && named(obj, "Promise") {
                    return Some(*at);
                }
            }
        }
    }
    None
}

fn has_zero_delay(args: &Vec<Option<Expr>>) -> (r: bool)
    ensures
        r == zero_delay(args@),
{
    if args.len() != 2 {
        return false;
    }
    match &args[1] {
        Some(Expr::Num(z)) => zero(*z),
        _ => false,
    }
}

fn nameless(e: &Expr) -> (r: bool)
    ensures
        r == is_named(e, seq![]),
{
    match ident_of(e) {
        Some(n) => {
            assert(n@.len() == 0 ==> n@ =~= seq![]);
            n.is_empty()
        },
        None => false,
    }
}

fn zero_timeout_place(e: &Expr) -> (r: Option<u32>)
    ensures
        r == zero_timeout_at(e),
{
    if let Expr::Call { callee, args, at } = e {
        let own_timer: bool = match &**callee {
            Expr::Member { obj, prop, .. } => str_eq(prop.as_str(), "setTimeout") && (named(
                obj,
                "window",
            ) || nameless(obj)),
            Expr::Ident(n, _) => str_eq(n.as_str(), "setTimeout"),
            _ => false,
        };
        if own_timer && has_zero_delay(args) {
            return Some(*at);
        }
    }
    None
}

fn does_ask(e: &Expr, name: &str) -> (r: bool)
    ensures
        r == asks_attribute(e, name@),
{
    if let Expr::Call { callee, args, .. } = e {
        if let Expr::Member { prop, .. } = &**callee {
            if !str_eq(prop.as_str(), "getAttribute") {
                return false;
            }
            let mut i: usize = 0;
            while i < args.len()
                invariant
                    i <= args@.len(),
                    forall|j: int| 0 <= j < i ==> !is_string(#[trigger] args@[j], name@),
                    e matches Expr::Call { callee: c, args: a, .. } && **c is Member && a == *args
                        && (**c)->Member_prop@ == "getAttribute"@,
                decreases args@.len() - i,
            {
                if let Some(Expr::Str { value, .. }) = &args[i] {
                    if str_eq(value.as_str(), name) {
                        assert(is_string(args@[i as int], name@));
                        return true;
                    }
                }
                i += 1;
            }
        }
    }
    false
}

fn does_read(e: &Expr, name: &str) -> (r: bool)
    ensures
        r == reads_member(e, name@),
{
    match e {
        Expr::Member { prop, .. } => str_eq(prop.as_str(), name),
        _ => false,
    }
}

impl Walk {
    spec fn shown(&self) -> Shown {
        Shown {
            timeouts: mark_views(self.timeout_hits@),
            errors: mark_views(self.stack_hits@),
            races: mark_views(self.race_hits@),
            signals: match self.signals {
                Some(v) => Some(texts(v@)),
                None => None,
            },
            be_version: self.be_version,
            fe_hash: self.fe_hash,
            tag_attr: self.tag_attr,
            sha_attr: self.sha_attr,
            delta: self.duration_delta,
            zeros: self.macrotask_zeros@,
        }
    }

    spec fn frames(&self) -> Seq<Frame> {
        frame_views(self.fn_stack@)
    }

    /// The walk has seen `v` since `old`, and stands in the same functions.
    spec fn saw(&self, was: &Walk, v: Seq<Visit>) -> bool {
        self.shown() == was.shown().with(v) && self.frames() == was.frames()
    }

    fn mark(&self, at: u32) -> (m: Mark)
        ensures
            m.at == at,
            frame_views(m.frames@) == self.frames(),
    {
        Mark { at, frames: copy_frames(&self.fn_stack) }
    }

    fn enter_fn(&mut self, start: u32, end: u32, name: Option<String>)
        ensures
            final(self).shown() == old(self).shown(),
            final(self).frames() == old(self).frames().push(
                frame_view(FnFrame { start, end, name }),
            ),
    {
        let ghost before = self.frames();
        self.fn_stack.push(FnFrame { start, end, name });
        assert(self.frames() =~= before.push(frame_view(FnFrame { start, end, name })));
    }

    fn exit_fn(&mut self)
        requires
            old(self).frames().len() > 0,
        ensures
            final(self).shown() == old(self).shown(),
            final(self).frames() == old(self).frames().drop_last(),
    {
        let ghost before = self.frames();
        let _ = self.fn_stack.pop();
        assert(self.frames() =~= before.drop_last());
    }

    fn props(&mut self, v: &Vec<Option<Prop>>)
        ensures
            final(self).shown() == old(self).shown().with_props(
                v@,
                v@.len() as int,
                old(self).frames(),
            ),
            final(self).frames() == old(self).frames(),
    {
        let ghost start = self.shown();
        let ghost f = self.frames();
        let mut i: usize = 0;
        while i < v.len()
            invariant
                i <= v@.len(),
                f == self.frames(),
                self.shown() == start.with_props(v@, i as int, f),
            decreases v@.len() - i,
        {
            if let Some(p) = &v[i] {
                let ghost before = self.shown();
                if let Some(k) = key_text(&p.key) {
                    if str_eq(k, "stack") {
                        if let Some(at) = error_place(&p.value) {
                            let m = self.mark(at);
                            self.stack_hits.push(m);
                            assert(self.shown().errors =~= before.errors.push(Hit { at, frames: f }));
                        }
                    } else if str_eq(k, "duration") {
                        if self.duration_delta.is_none() {
                            self.duration_delta = duration_delta_of(&p.value);
                        }
                    }
                }
                assert(self.shown() =~= before.with_prop(*p, f));
            }
            i += 1;
        }
    }

    fn expr(&mut self, e: &Expr)
        ensures
            final(self).shown() == old(self).shown().with_visit(
                Visit { e, frames: old(self).frames() },
            ),
            final(self).frames() == old(self).frames(),
    {
        let ghost start = self.shown();
        let ghost f = self.frames();
        match e {
            Expr::Object(p, _) => self.props(p),
            Expr::Str { value, at, .. } => {
                if str_eq(value.as_str(), "jsa_evaluation_timeout") {
                    let m = self.mark(*at);
                    self.timeout_hits.push(m);
                    assert(self.shown().timeouts =~= start.timeouts.push(
                        Hit { at: *at, frames: f },
                    ));
                }
            },
            _ => {},
        }
        let ghost mid = self.shown();
        if let Some(at) = race_place(e) {
            let m = self.mark(at);
            self.race_hits.push(m);
            assert(self.shown().races =~= mid.races.push(Hit { at, frames: f }));
        }
        if self.signals.is_none() {
            self.signals = signals_of(e);
        }
        if does_read(e, "__DDG_BE_VERSION__") {
            self.be_version = true;
        }
        if does_read(e, "__DDG_FE_CHAT_HASH__") {
            self.fe_hash = true;
        }
        if does_ask(e, "data-version-tag") {
            self.tag_attr = true;
        }
        if does_ask(e, "data-version-sha") {
            self.sha_attr = true;
        }
        if let Some(at) = zero_timeout_place(e) {
            self.macrotask_zeros.push(at);
        }
        assert(self.shown() =~= start.with_visit(Visit { e, frames: f }));
    }

    fn exprs(&mut self, v: &Vec<Expr>)
        ensures
            final(self).saw(old(self), visits_all(v@, v@.len() as int, old(self).frames())),
        decreases v, 0int,
    {
        let ghost start = self.shown();
        let ghost f = self.frames();
        let mut i: usize = 0;
        while i < v.len()
            invariant
                i <= v@.len(),
                self.frames() == f,
                self.shown() == start.with(visits_all(v@, i as int, f)),
            decreases v@.len() - i,
        {
            self.walk_expr(&v[i]);
            assert(self.shown() == start.with(visits_all(v@, i + 1, f))) by {
                broadcast use group_with;

            }
            i += 1;
        }
    }

    fn items(&mut self, v: &Vec<Option<Expr>>)
        ensures
            final(self).saw(old(self), visits_items(v@, v@.len() as int, old(self).frames())),
        decreases v, 0int,
    {
        let ghost start = self.shown();
        let ghost f = self.frames();
        let mut i: usize = 0;
        while i < v.len()
            invariant
                i <= v@.len(),
                self.frames() == f,
                self.shown() == start.with(visits_items(v@, i as int, f)),
            decreases v@.len() - i,
        {
            if let Some(x) = &v[i] {
                assert(decreases_to!(v => v@[i as int]->0));
                self.walk_expr(x);
            }
            assert(self.shown() == start.with(visits_items(v@, i + 1, f))) by {
                broadcast use group_with;

            }
            i += 1;
        }
    }

    fn fields(&mut self, v: &Vec<Option<Prop>>)
        ensures
            final(self).saw(old(self), visits_props(v@, v@.len() as int, old(self).frames())),
        decreases v, 0int,
    {
        let ghost start = self.shown();
        let ghost f = self.frames();
        let mut i: usize = 0;
        while i < v.len()
            invariant
                i <= v@.len(),
                self.frames() == f,
                self.shown() == start.with(visits_props(v@, i as int, f)),
            decreases v@.len() - i,
        {
            if let Some(p) = &v[i] {
                assert(decreases_to!(v => v@[i as int]->0.key));
                assert(decreases_to!(v => v@[i as int]->0.value));
                if let Key::Expr(k) = &p.key {
                    assert(decreases_to!(v@[i as int]->0.key => k));
                    self.walk_expr(k);
                }
                self.walk_expr(&p.value);
            }
            assert(self.shown() == start.with(visits_props(v@, i + 1, f))) by {
                broadcast use group_with;

            }
            i += 1;
        }
    }

    fn decls(&mut self, v: &Vec<Decl>)
        ensures
            final(self).saw(old(self), visits_decls(v@, v@.len() as int, old(self).frames())),
        decreases v, 0int,
    {
        let ghost start = self.shown();
        let ghost f = self.frames();
        let mut i: usize = 0;
        while i < v.len()
            invariant
                i <= v@.len(),
                self.frames() == f,
                self.shown() == start.with(visits_decls(v@, i as int, f)),
            decreases v@.len() - i,
        {
            if let Some(x) = &v[i].init {
                assert(decreases_to!(v => v@[i as int].init->0));
                self.walk_expr(x);
            }
            assert(self.shown() == start.with(visits_decls(v@, i + 1, f))) by {
                broadcast use group_with;

            }
            i += 1;
        }
    }

    fn cases(&mut self, v: &Vec<Case>)
        ensures
            final(self).saw(old(self), visits_cases(v@, v@.len() as int, old(self).frames())),
        decreases v, 0int,
    {
        let ghost start = self.shown();
        let ghost f = self.frames();
        let mut i: usize = 0;
        while i < v.len()
            invariant
                i <= v@.len(),
                self.frames() == f,
                self.shown() == start.with(visits_cases(v@, i as int, f)),
            decreases v@.len() - i,
        {
            if let Some(x) = &v[i].test {
                assert(decreases_to!(v => v@[i as int].test->0));
                self.walk_expr(x);
            }
            assert(decreases_to!(v => v@[i as int].body));
            self.stmts(&v[i].body);
            assert(self.shown() == start.with(visits_cases(v@, i + 1, f))) by {
                broadcast use group_with;

            }
            i += 1;
        }
    }

    fn stmts(&mut self, v: &Vec<Stmt>)
        ensures
            final(self).saw(old(self), visits_stmts(v@, v@.len() as int, old(self).frames())),
        decreases v, 0int,
    {
        let ghost start = self.shown();
        let ghost f = self.frames();
        let mut i: usize = 0;
        while i < v.len()
            invariant
                i <= v@.len(),
                self.frames() == f,
                self.shown() == start.with(visits_stmts(v@, i as int, f)),
            decreases v@.len() - i,
        {
            self.stmt(&v[i]);
            assert(self.shown() == start.with(visits_stmts(v@, i + 1, f))) by {
                broadcast use group_with;

            }
            i += 1;
        }
    }

    fn in_func(&mut self, fun: &Func)
        ensures
            final(self).saw(
                old(self),
                match fun.body {
                    Some(b) => visits_stmts(
                        b@,
                        b@.len() as int,
                        old(self).frames().push(frame_of(*fun)),
                    ),
                    None => seq![],
                },
            ),
        decreases fun, 0int,
    {
        broadcast use group_with;

        let ghost f = self.frames();
        self.enter_fn(fun.start, fun.end, copy_name(&fun.name));
        if let Some(b) = &fun.body {
            self.stmts(b);
        }
        self.exit_fn();
        assert(f.push(frame_of(*fun)).drop_last() =~= f);
    }

    fn walk_expr(&mut self, e: &Expr)
        ensures
            final(self).saw(old(self), visits(e, old(self).frames())),
        decreases e, 0int,
    {
        broadcast use group_with;

        let ghost f = self.frames();
        self.expr(e);
        match e {
            Expr::Array(v, _) => self.items(v),
            Expr::Object(v, _) => self.fields(v),
            Expr::Call { callee, args, .. } | Expr::New { callee, args, .. } => {
                self.walk_expr(callee);
                self.items(args);
            },
            Expr::Binary { l, r, .. } | Expr::Logical { l, r, .. } => {
                self.walk_expr(l);
                self.walk_expr(r);
            },
            Expr::Unary { arg, .. } | Expr::Await { arg, .. } | Expr::Paren(arg) => self.walk_expr(arg),
            Expr::Assign { target, value, .. } => {
                self.walk_expr(value);
                if let Target::Index { obj, idx } = target {
                    self.walk_expr(obj);
                    self.walk_expr(idx);
                }
            },
            Expr::Sequence(v, _) => self.exprs(v),
            Expr::Template { parts, .. } => self.exprs(parts),
            Expr::Cond { test, yes, no, .. } => {
                self.walk_expr(test);
                self.walk_expr(yes);
                self.walk_expr(no);
            },
            Expr::Arrow { body, start, end, .. } => {
                self.enter_fn(*start, *end, None);
                match body {
                    ArrowBody::Block(b) => self.stmts(b),
                    ArrowBody::Value(x) => self.walk_expr(x),
                }
                self.exit_fn();
                assert(f.push(Frame { start: *start, end: *end, name: None }).drop_last() =~= f);
            },
            Expr::Func(fun, _) => self.in_func(fun),
            Expr::Index { obj, idx, .. } => {
                self.walk_expr(obj);
                self.walk_expr(idx);
            },
            Expr::Member { obj, .. } => self.walk_expr(obj),
            _ => {},
        }
    }

    fn stmt(&mut self, s: &Stmt)
        ensures
            final(self).saw(old(self), visits_stmt(s, old(self).frames())),
        decreases s, 0int,
    {
        broadcast use group_with;

        match s {
            Stmt::Value(x) | Stmt::Throw(x) => self.walk_expr(x),
            Stmt::Vars(v) => self.decls(v),
            Stmt::Func(fun) => self.in_func(fun),
            Stmt::Return(x) => {
                if let Some(x) = x {
                    self.walk_expr(x);
                }
            },
            Stmt::If { test, yes, no } => {
                self.walk_expr(test);
                self.stmt(yes);
                if let Some(x) = no {
                    self.stmt(x);
                }
            },
            Stmt::While { test, body } => {
                self.walk_expr(test);
                self.stmt(body);
            },
            Stmt::DoWhile { body, test, .. } => {
                self.stmt(body);
                self.walk_expr(test);
            },
            Stmt::For { init, test, update, body } => {
                if let ForInit::Vars(v) = init {
                    self.decls(v);
                }
                if let Some(x) = test {
                    self.walk_expr(x);
                }
                if let Some(x) = update {
                    self.walk_expr(x);
                }
                self.stmt(body);
            },
            Stmt::ForOf { right, body, .. } | Stmt::ForIn { right, body, .. } => {
                self.walk_expr(right);
                self.stmt(body);
            },
            Stmt::Block(b) => self.stmts(b),
            Stmt::Try { block, handler, finalizer } => {
                self.stmts(block);
                if let Some(h) = handler {
                    self.stmts(&h.body);
                }
                if let Some(b) = finalizer {
                    self.stmts(b);
                }
            },
            Stmt::Switch { on, cases, .. } => {
                self.walk_expr(on);
                self.cases(cases);
            },
            Stmt::Labeled { body, .. } => self.stmt(body),
            _ => {},
        }
    }
}

// ------------------------------------------------------------------------- positions

/// The number of line feeds among the first `n` bytes.
pub open spec fn feeds(b: Seq<u8>, n: int) -> nat
    decreases n,
{
    if n <= 0 || n > b.len() { 0 } else { feeds(b, n - 1) + if b[n - 1] == 0x0a { 1nat } else { 0nat } }
}

/// Where the line of the byte `n` starts.
pub open spec fn line_start(b: Seq<u8>, n: int) -> int
    decreases n,
{
    if n <= 0 || n > b.len() {
        0
    } else if b[n - 1] == 0x0a {
        n
    } else {
        line_start(b, n - 1)
    }
}

/// How many UTF-16 units the characters take that start in `b[from..to]`.
pub open spec fn units(b: Seq<u8>, from: int, to: int) -> nat
    decreases to - from,
{
    if from >= to || to > b.len() {
        0
    } else {
        units(b, from, to - 1) + if b[to - 1] >= 0xf0 {
            2nat
        } else if 0x80 <= b[to - 1] < 0xc0 {
            0nat
        } else {
            1nat
        }
    }
}

/// The line and the column of a byte offset, both counted from one; the column in
/// UTF-16 units.
pub open spec fn line_col(b: Seq<u8>, offset: int) -> (int, int) {
    let n = if offset < b.len() { offset } else { b.len() as int };
    (feeds(b, n) as int + 1, units(b, line_start(b, n), n) as int + 1)
}

fn utf16_line_col(src: &str, offset: usize) -> (r: (u64, u64))
    requires
        encode_utf8(src@).len() <= u32::MAX,
    ensures
        (r.0 as int, r.1 as int) == line_col(encode_utf8(src@), offset as int),
{
    let b = src.as_bytes();
    let n: usize = if offset < b.len() { offset } else { b.len() };
    let mut line: u64 = 1;
    let mut start: usize = 0;
    let mut i: usize = 0;
    while i < n
        invariant
            i <= n <= b@.len(),
            b@.len() <= u32::MAX,
            line == feeds(b@, i as int) + 1,
            line <= i + 1,
            start == line_start(b@, i as int),
            start <= i,
        decreases n - i,
    {
        i += 1;
        if b[i - 1] == 0x0a {
            line += 1;
            start = i;
        }
    }
    let mut col: u64 = 0;
    let mut k: usize = start;
    while k < n
        invariant
            start <= k <= n <= b@.len(),
            b@.len() <= u32::MAX,
            col == units(b@, start as int, k as int),
            col <= 2 * (k - start),
        decreases n - k,
    {
        let c: u8 = b[k];
        if c >= 0xf0 {
            col += 2;
        } else if !(0x80 <= c && c < 0xc0) {
            col += 1;
        }
        k += 1;
    }
    (line, col + 1)
}

// --------------------------------------------------------------------------- timeout

/// Where reading goes on behind a backslash at `q` and the byte that it hides.
pub open spec fn past_escape(b: Seq<u8>, q: int) -> int {
    if q + 2 <= b.len() { q + 2 } else { b.len() as int }
}

/// Where the argument list that is open at `q` ends, and how many brackets are
/// still open there: brackets count outside of strings, and a backslash in a string
/// hides the next byte.
pub open spec fn call_end(b: Seq<u8>, q: int, depth: nat, quote: u8) -> (int, nat)
    decreases b.len() + 1 - q,
{
    if q < 0 || q >= b.len() {
        (q, depth)
    } else {
        let c = b[q];
        if quote != 0 {
            if c == 0x5c {
                call_end(b, past_escape(b, q), depth, quote)
            } else {
                call_end(b, q + 1, depth, if c == quote { 0 } else { quote })
            }
        } else if c == 0x22 || c == 0x27 || c == 0x60 {
            call_end(b, q + 1, depth, c)
        } else if c == 0x28 {
            call_end(b, q + 1, depth + 1, 0)
        } else if c == 0x29 && depth == 1 {
            (q, 0)
        } else {
            call_end(b, q + 1, if c == 0x29 && depth > 0 { (depth - 1) as nat } else { depth }, 0)
        }
    }
}

/// Where the last comma before `end` stands; minus one if there is none.
pub open spec fn last_comma(v: Seq<char>, end: int) -> int
    decreases end,
{
    if end <= 0 || end > v.len() {
        -1
    } else if v[end - 1] == ',' {
        end - 1
    } else {
        last_comma(v, end - 1)
    }
}

/// The last comma before `end` stands before `end`.
pub proof fn lemma_last_comma(v: Seq<char>, end: int)
    requires
        0 <= end <= v.len(),
    ensures
        -1 <= last_comma(v, end) < end || (end == 0 && last_comma(v, end) == -1),
    decreases end,
{
    if end > 0 && v[end - 1] != ',' {
        lemma_last_comma(v, end - 1);
    }
}

/// The last of the parts between commas, up to `end`, that is a number of ten or
/// more; zero if there is none.
pub open spec fn last_number(v: Seq<char>, end: int) -> nat
    decreases end,
    when 0 <= end <= v.len()
{
    proof {
        lemma_last_comma(v, end);
    }
    let c = last_comma(v, end);
    let n = u64_text(trimmed(v.subrange(c + 1, end)));
    if n is Some && n->0 >= 10 {
        n->0
    } else if c < 0 {
        0
    } else {
        last_number(v, c)
    }
}

fn find_number(v: &Vec<char>) -> (r: u64)
    ensures
        r as nat == last_number(v@, v@.len() as int),
{
    let mut end: usize = v.len();
    loop
        invariant
            end <= v@.len(),
            last_number(v@, v@.len() as int) == last_number(v@, end as int),
        decreases end,
    {
        let mut c: usize = end;
        while c > 0 && v[c - 1] != ','
            invariant
                c <= end <= v@.len(),
                last_comma(v@, end as int) == last_comma(v@, c as int),
            decreases c,
        {
            c -= 1;
        }
        assert(last_comma(v@, end as int) == c - 1);
        let (a, z) = trim(v, c, end);
        if let Some(n) = parse_u64(v, a, z) {
            if n >= 10 {
                return n;
            }
        }
        if c == 0 {
            return 0;
        }
        end = c - 1;
    }
}

/// The delay of the timer around the byte `tpos`: of the first call of
/// `setTimeout`, from the byte `from` on, whose arguments hold it.
pub open spec fn timer_delay(b: Seq<u8>, from: int, tpos: int) -> nat
    decreases b.len() + 1 - from,
{
    match next_at(b, encode_utf8("setTimeout"@), from) {
        None => 0,
        Some(p) => if p < from || p + 10 > b.len() {
            0
        } else if p + 10 >= b.len() || b[p + 10] != 0x28 {
            timer_delay(b, p + 10, tpos)
        } else {
            proof {
                lemma_call_end(b, p + 10, 0, 0);
            }
            let (q, depth) = call_end(b, p + 10, 0, 0);
            if depth == 0 && p + 10 < tpos < q {
                let args = b.subrange(p + 11, q);
                if valid_utf8(args) {
                    last_number(decode_utf8(args), decode_utf8(args).len() as int)
                } else {
                    0
                }
            } else {
                timer_delay(b, if q > p + 10 { q } else { p + 10 }, tpos)
            }
        },
    }
}

/// The end of a call lies at or behind the place where its search starts, and
/// inside the text where the brackets close.
pub proof fn lemma_call_end(b: Seq<u8>, q: int, depth: nat, quote: u8)
    requires
        0 <= q <= b.len() + 1,
    ensures
        q <= call_end(b, q, depth, quote).0 <= b.len() + 1,
        q < b.len() && call_end(b, q, depth, quote).1 == 0 && depth > 0 ==> call_end(
            b,
            q,
            depth,
            quote,
        ).0 < b.len(),
    decreases b.len() + 1 - q,
{
    if q < b.len() {
        let c = b[q];
        if quote != 0 {
            if c == 0x5c {
                lemma_call_end(b, past_escape(b, q), depth, quote);
                if q + 2 >= b.len() {
                    assert(call_end(b, past_escape(b, q), depth, quote).1 == depth);
                }
            } else {
                lemma_call_end(b, q + 1, depth, if c == quote { 0 } else { quote });
                if q + 1 == b.len() {
                    assert(call_end(b, q + 1, depth, if c == quote { 0 } else { quote }).1 == depth);
                }
            }
        } else if c == 0x22 || c == 0x27 || c == 0x60 {
            lemma_call_end(b, q + 1, depth, c);
            if q + 1 == b.len() {
                assert(call_end(b, q + 1, depth, c).1 == depth);
            }
        } else if c == 0x28 {
            lemma_call_end(b, q + 1, depth + 1, 0);
            if q + 1 == b.len() {
                assert(call_end(b, q + 1, depth + 1, 0).1 == depth + 1);
            }
        } else if c == 0x29 && depth == 1 {
        } else {
            let d = if c == 0x29 && depth > 0 { (depth - 1) as nat } else { depth };
            lemma_call_end(b, q + 1, d, 0);
            if q + 1 == b.len() {
                assert(call_end(b, q + 1, d, 0).1 == d);
            }
        }
    }
}

fn find_call_end(b: &[u8], from: usize) -> (r: (usize, usize))
    requires
        from < b@.len(),
        b@.len() <= u32::MAX,
        b@[from as int] == 0x28,
    ensures
        (r.0 as int, r.1 as nat) == call_end(b@, from as int, 0, 0),
        from < r.0 <= b@.len() + 1,
        r.1 == 0 ==> r.0 < b@.len(),
{
    let mut q: usize = from + 1;
    let mut depth: usize = 1;
    let mut quote: u8 = 0;
    proof {
        lemma_call_end(b@, q as int, 1, 0);
        if q == b@.len() {
            assert(call_end(b@, q as int, 1, 0).1 == 1);
        }
    }
    while q < b.len()
        invariant
            from < q <= b@.len() + 1,
            b@.len() <= u32::MAX,
            1 <= depth <= q,
            call_end(b@, from as int, 0, 0) == call_end(b@, q as int, depth as nat, quote),
            call_end(b@, from as int, 0, 0).1 == 0 ==> call_end(b@, from as int, 0, 0).0 < b@.len(),
            from < call_end(b@, from as int, 0, 0).0 <= b@.len() + 1,
        decreases b@.len() + 1 - q,
    {
        let c: u8 = b[q];
        if quote != 0 {
            if c == 0x5c {
                q = if b.len() - q >= 2 { q + 2 } else { b.len() };
                continue ;
            }
            if c == quote {
                quote = 0;
            }
        } else if c == 0x22 || c == 0x27 || c == 0x60 {
            quote = c;
        } else if c == 0x28 {
            depth += 1;
        } else if c == 0x29 {
            if depth == 1 {
                return (q, 0);
            }
            depth -= 1;
        }
        q += 1;
    }
    (q, depth)
}

fn timeout_ms_of(src: &str, tpos: u32) -> (r: u64)
    requires
        encode_utf8(src@).len() <= u32::MAX,
    ensures
        r as nat == timer_delay(encode_utf8(src@), 0, tpos as int),
{
    let b = src.as_bytes();
    let t: usize = tpos as usize;
    let needle = "setTimeout".as_bytes();
    proof {
        reveal_strlit("setTimeout");
        vstd::utf8::is_ascii_chars_encode_utf8("setTimeout"@);
        assert(needle@.len() == 10);
    }
    let mut from: usize = 0;
    loop
        invariant
            b@ == encode_utf8(src@),
            b@.len() <= u32::MAX,
            needle@ == encode_utf8("setTimeout"@),
            needle@.len() == 10,
            t == tpos,
            from <= b@.len() + 1,
            timer_delay(b@, 0, tpos as int) == timer_delay(b@, from as int, tpos as int),
        decreases b@.len() + 1 - from,
    {
        let p: usize = match find_next(b, needle, from) {
            Some(p) => p,
            None => return 0,
        };
        if p + 10 >= b.len() || b[p + 10] != 0x28 {
            from = p + 10;
            continue ;
        }
        let (q, depth) = find_call_end(b, p + 10);
        if depth == 0 && p + 10 < t && t < q {
            let args = bytes_of(b, p + 11, q);
            return match utf8_str(args.as_slice()) {
                Some(s) => {
                    let v = chars_of(s);
                    find_number(&v)
                },
                None => 0,
            };
        }
        from = q;
    }
}

// -------------------------------------------------------------------------- the facts

/// `p` lies inside the function.
pub open spec fn inside(f: Frame, p: u32) -> bool {
    f.start <= p < f.end
}

/// The first hit inside the function, from place `i` on.
pub open spec fn first_inside(v: Seq<Hit>, i: int, f: Frame) -> Option<int>
    decreases v.len() - i,
{
    if i < 0 || i >= v.len() {
        None
    } else if inside(f, v[i].at) {
        Some(i)
    } else {
        first_inside(v, i + 1, f)
    }
}

/// The error and the race inside the innermost of the first `k` functions that
/// holds both.
pub open spec fn pair_in(s: Shown, frames: Seq<Frame>, k: int) -> Option<(int, int)>
    decreases k,
{
    if k <= 0 || k > frames.len() {
        None
    } else {
        match (first_inside(s.errors, 0, frames[k - 1]), first_inside(s.races, 0, frames[k - 1])) {
            (Some(e), Some(r)) => Some((e, r)),
            _ => pair_in(s, frames, k - 1),
        }
    }
}

/// The error and the race that belong to the first timeout, from place `i` on,
/// that has both.
pub open spec fn stack_pair(s: Shown, i: int) -> Option<(int, int)>
    decreases s.timeouts.len() - i,
{
    if i < 0 || i >= s.timeouts.len() {
        None
    } else {
        match pair_in(s, s.timeouts[i].frames, s.timeouts[i].frames.len() as int) {
            Some(p) => Some(p),
            None => stack_pair(s, i + 1),
        }
    }
}

/// The name of the innermost of the first `k` functions that has one.
pub open spec fn inner_name(frames: Seq<Frame>, k: int) -> Option<Seq<char>>
    decreases k,
{
    if k <= 0 || k > frames.len() {
        None
    } else {
        match frames[k - 1].name {
            Some(n) => Some(n),
            None => inner_name(frames, k - 1),
        }
    }
}

/// The last of the places of the first `n` hits.
pub open spec fn last_place(v: Seq<Hit>, n: int) -> u32
    decreases n,
{
    if n <= 0 || n > v.len() {
        0
    } else {
        let m = last_place(v, n - 1);
        if v[n - 1].at > m { v[n - 1].at } else { m }
    }
}

/// Some zero timeout lies inside the innermost function.
pub open spec fn zero_inside(zeros: Seq<u32>, frames: Seq<Frame>) -> bool {
    frames.len() > 0 && exists|i: int|
        0 <= i < zeros.len() && inside(frames.last(), #[trigger] zeros[i])
}

/// Everything that a script shows.
pub open spec fn shown_by(program: Seq<Stmt>) -> Shown {
    nothing().with(visits_stmts(program, program.len() as int, seq![]))
}

/// `env` holds the facts of a script with the bytes `b` that shows `s`.
pub open spec fn env_of(env: BundleEnv, b: Seq<u8>, s: Shown) -> bool {
    let pair = stack_pair(s, 0);
    let frames = s.errors[(pair->0).0].frames;
    let name = inner_name(frames, frames.len() as int);
    &&& env.fe_version_ok == (s.be_version && s.fe_hash && s.tag_attr && s.sha_attr)
    &&& texts(env.signal_events@) == (match s.signals {
        Some(v) => v,
        None => seq![],
    })
    &&& env.timing.duration_delta == (match s.delta {
        Some(d) => d,
        None => 0,
    })
    &&& if pair is Some && name is Some {
        let e = line_col(b, s.errors[(pair->0).0].at as int);
        let r = line_col(b, s.races[(pair->0).1].at as int);
        &&& env.stack matches Some(f)
        &&& f.fname@ == name->0
        &&& (f.line as int, f.col_error as int) == e
        &&& f.col_race == r.1
        &&& env.timing.macrotask_zero == zero_inside(s.zeros, frames)
        &&& env.timing.timeout_ms as nat == timer_delay(
            b,
            0,
            last_place(s.timeouts, s.timeouts.len() as int) as int,
        )
    } else {
        env.stack is None && !env.timing.macrotask_zero && env.timing.timeout_ms == 0
    }
}

fn find_inside(v: &Vec<Mark>, f: &FnFrame) -> (r: Option<usize>)
    ensures
        match first_inside(mark_views(v@), 0, frame_view(*f)) {
            Some(i) => r matches Some(k) && k == i && 0 <= i < v@.len(),
            None => r is None,
        },
{
    let mut i: usize = 0;
    while i < v.len()
        invariant
            i <= v@.len(),
            first_inside(mark_views(v@), 0, frame_view(*f)) == first_inside(
                mark_views(v@),
                i as int,
                frame_view(*f),
            ),
        decreases v@.len() - i,
    {
        if f.start <= v[i].at && v[i].at < f.end {
            return Some(i);
        }
        i += 1;
    }
    None
}

fn find_pair(w: &Walk, frames: &Vec<FnFrame>) -> (r: Option<(usize, usize)>)
    ensures
        match pair_in(w.shown(), frame_views(frames@), frames@.len() as int) {
            Some(p) => r matches Some(q) && (q.0 as int, q.1 as int) == p && q.0 < w.stack_hits@.len()
                && q.1 < w.race_hits@.len(),
            None => r is None,
        },
{
    let ghost fs = frame_views(frames@);
    let mut k: usize = frames.len();
    while k > 0
        invariant
            k <= frames@.len(),
            fs == frame_views(frames@),
            pair_in(w.shown(), fs, frames@.len() as int) == pair_in(w.shown(), fs, k as int),
        decreases k,
    {
        k -= 1;
        assert(fs[k as int] == frame_view(frames@[k as int]));
        if let (Some(e), Some(r)) = (
            find_inside(&w.stack_hits, &frames[k]),
            find_inside(&w.race_hits, &frames[k]),
        ) {
            return Some((e, r));
        }
    }
    None
}

fn find_stack(w: &Walk) -> (r: Option<(usize, usize)>)
    ensures
        match stack_pair(w.shown(), 0) {
            Some(p) => r matches Some(q) && (q.0 as int, q.1 as int) == p && q.0 < w.stack_hits@.len()
                && q.1 < w.race_hits@.len(),
            None => r is None,
        },
{
    let mut i: usize = 0;
    while i < w.timeout_hits.len()
        invariant
            i <= w.timeout_hits@.len(),
            stack_pair(w.shown(), 0) == stack_pair(w.shown(), i as int),
        decreases w.timeout_hits@.len() - i,
    {
        let ghost fs = w.shown().timeouts[i as int].frames;
        assert(fs == frame_views(w.timeout_hits@[i as int].frames@));
        assert(fs.len() == w.timeout_hits@[i as int].frames@.len());
        if let Some(p) = find_pair(w, &w.timeout_hits[i].frames) {
            return Some(p);
        }
        i += 1;
    }
    None
}

fn find_name(frames: &Vec<FnFrame>) -> (r: Option<String>)
    ensures
        match inner_name(frame_views(frames@), frames@.len() as int) {
            Some(n) => r matches Some(s) && s@ == n,
            None => r is None,
        },
{
    let ghost fs = frame_views(frames@);
    let mut k: usize = frames.len();
    while k > 0
        invariant
            k <= frames@.len(),
            fs == frame_views(frames@),
            inner_name(fs, frames@.len() as int) == inner_name(fs, k as int),
        decreases k,
    {
        k -= 1;
        assert(fs[k as int] == frame_view(frames@[k as int]));
        if let Some(n) = &frames[k].name {
            return Some(own(n.as_str()));
        }
    }
    None
}

fn has_zero_inside(zeros: &Vec<u32>, frames: &Vec<FnFrame>) -> (r: bool)
    ensures
        r == zero_inside(zeros@, frame_views(frames@)),
{
    if frames.len() == 0 {
        return false;
    }
    let last: usize = frames.len() - 1;
    let f = &frames[last];
    let ghost fs = frame_views(frames@);
    assert(fs.last() == frame_view(*f));
    let mut i: usize = 0;
    while i < zeros.len()
        invariant
            i <= zeros@.len(),
            fs == frame_views(frames@),
            fs.len() > 0,
            fs.last() == frame_view(*f),
            forall|j: int| 0 <= j < i ==> !inside(fs.last(), #[trigger] zeros@[j]),
        decreases zeros@.len() - i,
    {
        if f.start <= zeros[i] && zeros[i] < f.end {
            assert(inside(fs.last(), zeros@[i as int]));
            return true;
        }
        i += 1;
    }
    false
}

fn greatest_place(v: &Vec<Mark>) -> (r: u32)
    ensures
        r == last_place(mark_views(v@), v@.len() as int),
{
    let mut r: u32 = 0;
    let mut i: usize = 0;
    while i < v.len()
        invariant
            i <= v@.len(),
            r == last_place(mark_views(v@), i as int),
        decreases v@.len() - i,
    {
        assert(mark_views(v@)[i as int].at == v@[i as int].at);
        if v[i].at > r {
            r = v[i].at;
        }
        i += 1;
    }
    r
}

fn walk_program(program: &Vec<Stmt>) -> (w: Walk)
    ensures
        w.shown() == shown_by(program@),
{
    let mut w = Walk {
        fn_stack: Vec::new(),
        timeout_hits: Vec::new(),
        stack_hits: Vec::new(),
        race_hits: Vec::new(),
        signals: None,
        be_version: false,
        fe_hash: false,
        tag_attr: false,
        sha_attr: false,
        duration_delta: None,
        macrotask_zeros: Vec::new(),
    };
    assert(w.shown() =~= nothing());
    assert(w.frames() =~= seq![]);
    w.stmts(program);
    w
}

/// The facts that a parsed script gives away.
pub fn facts_of(src: &str, program: &Vec<Stmt>) -> (env: BundleEnv)
    requires
        encode_utf8(src@).len() <= u32::MAX,
    ensures
        env_of(env, encode_utf8(src@), shown_by(program@)),
{
    let w = walk_program(program);
    let ghost s = w.shown();
    let pair = find_stack(&w);
    let mut stack: Option<StackFacts> = None;
    let mut timeout_ms: u64 = 0;
    let mut macrotask_zero: bool = false;
    if let Some((e, r)) = pair {
        assert(s.errors[e as int].at == w.stack_hits@[e as int].at);
        assert(s.errors[e as int].frames == frame_views(w.stack_hits@[e as int].frames@));
        assert(s.races[r as int].at == w.race_hits@[r as int].at);
        let frames = &w.stack_hits[e].frames;
        assert(frame_views(frames@).len() == frames@.len());
        if let Some(fname) = find_name(frames) {
            let (line, col_error) = utf16_line_col(src, w.stack_hits[e].at as usize);
            let (_, col_race) = utf16_line_col(src, w.race_hits[r].at as usize);
            macrotask_zero = has_zero_inside(&w.macrotask_zeros, frames);
            stack = Some(StackFacts { fname, line, col_error, col_race });
            assert(s.timeouts.len() == w.timeout_hits@.len());
            timeout_ms = timeout_ms_of(src, greatest_place(&w.timeout_hits));
        }
    }
    let duration_delta: i64 = match w.duration_delta {
        Some(d) => d,
        None => 0,
    };
    let fe_version_ok: bool = w.be_version && w.fe_hash && w.tag_attr && w.sha_attr;
    let signal_events: Vec<String> = match w.signals {
        Some(v) => v,
        None => {
            let none: Vec<String> = Vec::new();
            assert(texts(none@) =~= seq![]);
            none
        },
    };
    let env = BundleEnv {
        stack,
        timing: Timing { timeout_ms, duration_delta, macrotask_zero },
        fe_version_ok,
        signal_events,
    };
    proof {
        if let Some(p) = stack_pair(s, 0) {
            let frames = s.errors[p.0].frames;
            if inner_name(frames, frames.len() as int) is Some {
                assert(env.stack is Some);
            } else {
                assert(env.stack is None);
            }
        } else {
            assert(env.stack is None);
        }
    }
    env
}

/// The facts that a script gives away; `None` where it is no script, or where it
/// has more than `u32::MAX` bytes.
pub fn analyze_bundle(src: &str) -> (r: Option<BundleEnv>)
    ensures
        match parsed(src@, 0) {
            Ok(program) => if encode_utf8(src@).len() <= u32::MAX {
                r matches Some(env) && env_of(env, encode_utf8(src@), shown_by(program))
            } else {
                r is None
            },
            Err(_) => r is None,
        },
{
    match parse(src, 0) {
        Ok(program) => {
            if src.as_bytes().len() > 0xffff_ffff {
                return None;
            }
            Some(facts_of(src, &program))
        },
        Err(_) => None,
    }
}

} // verus!
