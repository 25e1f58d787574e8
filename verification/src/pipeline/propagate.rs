//! Constant propagation: from a syntax tree to folded code, with looked up strings
//! in place of the lookups and known values in place of names.
use vstd::prelude::*;

use crate::floats::{FloatOps, FloatsV};
use crate::jsnum::{bits_of_nat, format_js_num, from_u64, int64_of, less_eq, num_le, to_i64, NAN, ONE};
use crate::pipeline::fold::{fold_bin, fold_un, js_to_number, truth, truthy};
use crate::pipeline::statics::{decoder, entry, ident_of, name_of, num_lit, resolve_alias, Statics, StaticsV};
use crate::pipeline::sx::{field_models, models, opt_model, texts, Sx, SxV};
use crate::pipeline::syntax::{ArrowBody, ClassDef, Decl, Expr, ForInit, Func, Handler, Key, Prop, Stmt, Target};
use crate::pipeline::table::{mod_i64, sub64, wrap64};
use crate::text::{dec_u64, decimal, join2, own, str_eq, utf16, utf16_of};

verus! {

/// What is known of the names in scope, the innermost scope last, and every name
/// that has been written to, once for each time.
#[verifier::ext_equal]
pub struct Scopes {
    pub scopes: Seq<Map<Seq<char>, SxV>>,
    pub log: Seq<Seq<char>>,
}

/// How often a name occurs in a list.
pub open spec fn times(log: Seq<Seq<char>>, name: Seq<char>) -> nat
    decreases log.len(),
{
    if log.len() == 0 {
        0
    } else {
        times(log.drop_last(), name) + if log.last() == name { 1nat } else { 0nat }
    }
}

/// What the innermost of the first `k` scopes that knows a name says of it.
pub open spec fn known(scopes: Seq<Map<Seq<char>, SxV>>, k: int, name: Seq<char>) -> Option<SxV>
    decreases k,
{
    if k <= 0 || k > scopes.len() {
        None
    } else if scopes[k - 1].contains_key(name) {
        Some(scopes[k - 1][name])
    } else {
        known(scopes, k - 1, name)
    }
}

impl Scopes {
    /// What is known of a name.
    pub open spec fn find(self, name: Seq<char>) -> Option<SxV> {
        known(self.scopes, self.scopes.len() as int, name)
    }

    /// The innermost scope says `v` of `name`.
    pub open spec fn bound(self, name: Seq<char>, v: SxV) -> Scopes {
        if self.scopes.len() == 0 {
            self
        } else {
            Scopes {
                scopes: self.scopes.drop_last().push(self.scopes.last().insert(name, v)),
                log: self.log,
            }
        }
    }

    /// `name` has been written to.
    pub open spec fn written(self, name: Seq<char>) -> Scopes {
        Scopes { scopes: self.scopes, log: self.log.push(name) }
    }

    /// A new scope has been entered.
    pub open spec fn entered(self) -> Scopes {
        Scopes { scopes: self.scopes.push(Map::empty()), log: self.log }
    }

    /// The innermost scope has been left.
    pub open spec fn left(self) -> Scopes {
        Scopes { scopes: self.scopes.drop_last(), log: self.log }
    }

    /// Each parameter stands for itself.
    pub open spec fn with_params(self, params: Seq<Option<String>>, n: int) -> Scopes
        decreases n,
    {
        if n <= 0 || n > params.len() {
            self
        } else {
            let s = self.with_params(params, n - 1);
            match params[n - 1] {
                Some(p) => s.bound(p@, SxV::Ref(p@)),
                None => s,
            }
        }
    }

    /// What stands for a name: its value if that is a constant, a property access
    /// or a call, and the last name on the way if it stands for other names. A
    /// name that has been written to more than once stands for itself.
    pub open spec fn subst(self, key: Seq<char>, name: Seq<char>, n: nat) -> SxV
        decreases n,
    {
        if n == 0 {
            SxV::Ref(name)
        } else if times(self.log, key) > 1 {
            SxV::Ref(key)
        } else {
            match self.find(key) {
                Some(v) => match v {
                    SxV::Num(_) | SxV::Str(_) | SxV::Bool(_) | SxV::Null | SxV::Undef => v,
                    SxV::Member { .. } | SxV::Index { .. } | SxV::Call { .. } | SxV::New { .. } => v,
                    SxV::Ref(alias) => if alias == key {
                        SxV::Ref(key)
                    } else if self.find(alias) is None {
                        SxV::Ref(alias)
                    } else {
                        self.subst(alias, name, (n - 1) as nat)
                    },
                    _ => SxV::Ref(key),
                },
                None => SxV::Ref(key),
            }
        }
    }
}

/// The names among a list of parameters.
pub open spec fn plain_params(params: Seq<Option<String>>, n: int) -> Seq<Seq<char>>
    decreases n,
{
    if n <= 0 || n > params.len() {
        seq![]
    } else {
        match params[n - 1] {
            Some(p) => plain_params(params, n - 1).push(p@),
            None => plain_params(params, n - 1),
        }
    }
}

/// An assignment operator; the rarer ones are not told apart.
pub open spec fn assign_op(op: Seq<char>) -> Seq<char> {
    if op == "="@ || op == "+="@ || op == "-="@ || op == "*="@ || op == "/="@ || op == "%="@ || op
        == "^="@ || op == "&="@ || op == "|="@ {
        op
    } else {
        "?="@
    }
}

/// An access by a computed property; a string makes it a plain one.
pub open spec fn access(obj: SxV, idx: SxV) -> SxV {
    match idx {
        SxV::Str(p) => SxV::Member { obj: Box::new(obj), prop: p },
        _ => SxV::Index { obj: Box::new(obj), idx: Box::new(idx) },
    }
}

/// `name(v)`.
pub open spec fn plain_call(name: Seq<char>, args: Seq<SxV>) -> SxV {
    SxV::Call { callee: Box::new(SxV::Ref(name)), args }
}

/// The name of a class; nothing for one without.
pub open spec fn class_name(c: ClassDef) -> Seq<char> {
    match c.name {
        Some(n) => n@,
        None => seq![],
    }
}

/// A call of a property that a string or an array knows by itself.
pub open spec fn builtin(callee: SxV, args: Seq<SxV>) -> Option<SxV> {
    match callee {
        SxV::Member { obj, prop } => if prop == "charCodeAt"@ && args.len() == 1 && *obj is Str
            && args[0] is Num && num_le(0, args[0]->Num_0) {
            let units = utf16(obj->Str_0);
            let i = int64_of(args[0]->Num_0) as int;
            Some(
                SxV::Num(
                    if 0 <= i < units.len() { bits_of_nat(units[i] as nat) as u64 } else { NAN },
                ),
            )
        } else if prop == "length"@ && *obj is Str {
            Some(SxV::Num(bits_of_nat(utf16(obj->Str_0).len()) as u64))
        } else if prop == "length"@ && *obj is Arr {
            Some(SxV::Num(bits_of_nat(obj->Arr_0.len()) as u64))
        } else {
            None
        },
        _ => None,
    }
}

impl FloatsV {
    /// A conversion function applied to a folded argument.
    pub open spec fn converted(&self, name: Seq<char>, v: SxV) -> SxV {
        let plain = plain_call(name, seq![v]);
        if name == "parseInt"@ {
            match v {
                SxV::Str(s) => SxV::Num(self.parse_int_of(s, 0)),
                SxV::Num(_) => v,
                _ => plain,
            }
        } else if name == "Number"@ {
            match v {
                SxV::Str(s) => SxV::Num(self.number_text(s)),
                SxV::Num(_) => v,
                SxV::Bool(b) => SxV::Num(if b { ONE } else { 0 }),
                SxV::Undef => SxV::Num(NAN),
                SxV::Null => SxV::Num(0),
                _ => plain,
            }
        } else if name == "String"@ {
            match v {
                SxV::Str(_) => v,
                SxV::Num(n) => SxV::Str(self.num_text(n)),
                SxV::Bool(b) => SxV::Str(if b { "true"@ } else { "false"@ }),
                SxV::Undef => SxV::Str("undefined"@),
                SxV::Null => SxV::Str("null"@),
                _ => plain,
            }
        } else {
            match truth(v) {
                Some(b) => SxV::Bool(b),
                None => plain,
            }
        }
    }
}

/// What propagation goes by: the string table in its final order, and what the
/// script declares.
pub struct World {
    pub fl: FloatsV,
    pub strings: Seq<Seq<char>>,
    pub st: StaticsV,
}

impl World {
    /// The string that the lookup function `name` finds under `arg`.
    pub open spec fn decoded(&self, name: Seq<char>, arg: u64) -> Option<Seq<char>> {
        match decoder(self.st, name) {
            Some(d) => match entry(self.st.decoders, d) {
                Some(delta) => if self.strings.len() > 0 {
                    Some(
                        self.strings[(wrap64(int64_of(arg) - int64_of(delta)) as int)
                            % (self.strings.len() as int)],
                    )
                } else {
                    None
                },
                None => None,
            },
            None => None,
        }
    }

    /// The first argument of a call is a constant: its value.
    pub open spec fn first_constant(&self, args: Seq<Option<Expr>>) -> Option<u64> {
        if args.len() > 0 {
            match args[0] {
                Some(x) => self.fl.constant(&x),
                None => None,
            }
        } else {
            None
        }
    }

    /// An expression at nesting depth `d`: folded, with what is known after it; or
    /// the reason why it cannot be.
    pub open spec fn expr(&self, e: &Expr, d: int, s: Scopes) -> Result<(SxV, Scopes), Seq<char>>
        decreases e, 1int,
    {
        if d > 64 {
            Err("превышена глубина выражения"@)
        } else {
            self.inner(e, d + 1, s)
        }
    }

    /// The value of an expression whose depth has been counted.
    pub open spec fn inner(&self, e: &Expr, d: int, s: Scopes) -> Result<(SxV, Scopes), Seq<char>>
        decreases e, 0int,
    {
        match e {
            Expr::Paren(p) => self.inner(p, d, s),
            Expr::Num(n) => Ok((SxV::Num(*n), s)),
            Expr::Str { value, .. } => Ok((SxV::Str(value@), s)),
            Expr::Bool(b, _) => Ok((SxV::Bool(*b), s)),
            Expr::Null(_) => Ok((SxV::Null, s)),
            Expr::This(_) => Ok((SxV::Ref("this"@), s)),
            Expr::Ident(n, _) => if n@ == "undefined"@ {
                Ok((SxV::Undef, s))
            } else {
                Ok((s.subst(n@, n@, 16), s))
            },
            Expr::Member { obj, prop, .. } => match self.expr(obj, d, s) {
                Ok((o, s1)) => Ok((SxV::Member { obj: Box::new(o), prop: prop@ }, s1)),
                Err(m) => Err(m),
            },
            Expr::Index { obj, idx, .. } => match self.expr(obj, d, s) {
                Ok((o, s1)) => match self.expr(idx, d, s1) {
                    Ok((i, s2)) => Ok((access(o, i), s2)),
                    Err(m) => Err(m),
                },
                Err(m) => Err(m),
            },
            Expr::Call { callee, args, .. } => {
                let name = name_of(callee);
                let arg = self.first_constant(args@);
                if name is Some && decoder(self.st, name->0) is Some && arg is Some {
                    match self.decoded(name->0, arg->0) {
                        Some(t) => Ok((SxV::Str(t), s)),
                        None => Err(
                            "декодер "@ + name->0 + "("@ + (self.fl.shown)(arg->0) + ") вне массива"@,
                        ),
                    }
                } else if name is Some && (name->0 == "parseInt"@ || name->0 == "Number"@ || name->0
                    == "String"@ || name->0 == "Boolean"@) {
                    if args@.len() > 0 {
                        match args@[0] {
                            Some(a) => match self.expr(&a, d, s) {
                                Ok((v, s1)) => Ok((self.fl.converted(name->0, v), s1)),
                                Err(m) => Err(m),
                            },
                            None => Ok((plain_call(name->0, seq![]), s)),
                        }
                    } else {
                        Ok((plain_call(name->0, seq![]), s))
                    }
                } else {
                    match self.expr(callee, d, s) {
                        Ok((c, s1)) => match self.items(
                            args@,
                            args@.len() as int,
                            d,
                            s1,
                            "spread-аргумент"@,
                        ) {
                            Ok((a, s2)) => Ok(
                                (
                                    match builtin(c, a) {
                                        Some(x) => x,
                                        None => SxV::Call { callee: Box::new(c), args: a },
                                    },
                                    s2,
                                ),
                            ),
                            Err(m) => Err(m),
                        },
                        Err(m) => Err(m),
                    }
                }
            },
            Expr::New { callee, args, .. } => match self.expr(callee, d, s) {
                Ok((c, s1)) => match self.items(args@, args@.len() as int, d, s1, "spread в new"@) {
                    Ok((a, s2)) => Ok((SxV::New { callee: Box::new(c), args: a }, s2)),
                    Err(m) => Err(m),
                },
                Err(m) => Err(m),
            },
            Expr::Unary { op, arg } => match self.expr(arg, d, s) {
                Ok((a, s1)) => Ok((self.fl.unary(op@, a), s1)),
                Err(m) => Err(m),
            },
            Expr::Update { op, target, .. } => match target {
                Some(n) => Ok(
                    (
                        SxV::Assign {
                            target: Box::new(SxV::Ref(n@)),
                            op: op@,
                            value: Box::new(SxV::Num(ONE)),
                        },
                        s.written(n@),
                    ),
                ),
                None => Err("цель ++ вне модели"@),
            },
            Expr::Binary { op, l, r } => match self.expr(l, d, s) {
                Ok((a, s1)) => match self.expr(r, d, s1) {
                    Ok((b, s2)) => Ok((self.fl.binary(op@, a, b), s2)),
                    Err(m) => Err(m),
                },
                Err(m) => Err(m),
            },
            Expr::Logical { op, l, r, .. } => match self.expr(l, d, s) {
                Ok((a, s1)) => match self.expr(r, d, s1) {
                    Ok((b, s2)) => {
                        let plain = SxV::Log { op: op@, l: Box::new(a), r: Box::new(b) };
                        Ok(
                            (
                                match truth(a) {
                                    Some(t) => if op@ == "&&"@ {
                                        if t { b } else { a }
                                    } else if op@ == "||"@ {
                                        if t { a } else { b }
                                    } else {
                                        plain
                                    },
                                    None => plain,
                                },
                                s2,
                            ),
                        )
                    },
                    Err(m) => Err(m),
                },
                Err(m) => Err(m),
            },
            Expr::Cond { test, yes, no, .. } => match self.expr(test, d, s) {
                Ok((t, s1)) => match self.expr(yes, d, s1) {
                    Ok((a, s2)) => match self.expr(no, d, s2) {
                        Ok((b, s3)) => Ok(
                            (
                                match truth(t) {
                                    Some(v) => if v { a } else { b },
                                    None => SxV::Cond {
                                        t: Box::new(t),
                                        c: Box::new(a),
                                        a: Box::new(b),
                                    },
                                },
                                s3,
                            ),
                        ),
                        Err(m) => Err(m),
                    },
                    Err(m) => Err(m),
                },
                Err(m) => Err(m),
            },
            Expr::Assign { op, target, value, .. } => match self.expr(value, d, s) {
                Ok((v, s1)) => match self.target(target, v, d, s1) {
                    Ok((t, s2)) => Ok(
                        (
                            SxV::Assign {
                                target: Box::new(t),
                                op: assign_op(op@),
                                value: Box::new(v),
                            },
                            s2,
                        ),
                    ),
                    Err(m) => Err(m),
                },
                Err(m) => Err(m),
            },
            Expr::Sequence(v, _) => match self.exprs(v@, v@.len() as int, d, s) {
                Ok((out, s1)) => Ok(
                    (if out.len() == 1 { out[0] } else { SxV::Sequence(out) }, s1),
                ),
                Err(m) => Err(m),
            },
            Expr::Array(v, _) => match self.items(
                v@,
                v@.len() as int,
                d,
                s,
                "spread/дыра в массиве"@,
            ) {
                Ok((out, s1)) => Ok((SxV::Arr(out), s1)),
                Err(m) => Err(m),
            },
            Expr::Object(v, _) => match self.fields(v@, v@.len() as int, d, s) {
                Ok((out, s1)) => Ok((SxV::Obj(out), s1)),
                Err(m) => Err(m),
            },
            Expr::Await { arg, .. } => self.expr(arg, d, s),
            Expr::Func(f, _) => {
                let params = plain_params(f.params@, f.params@.len() as int);
                match f.body {
                    Some(b) => match self.stmts(
                        b@,
                        b@.len() as int,
                        d,
                        s.entered().with_params(f.params@, f.params@.len() as int),
                    ) {
                        Ok((body, s1)) => Ok((SxV::Fn { params, body, arrow: false }, s1.left())),
                        Err(m) => Err(m),
                    },
                    None => Ok(
                        (
                            SxV::Fn { params, body: seq![], arrow: false },
                            s.entered().with_params(f.params@, f.params@.len() as int).left(),
                        ),
                    ),
                }
            },
            Expr::Arrow { params: p, body, .. } => {
                let params = plain_params(p@, p@.len() as int);
                let s0 = s.entered().with_params(p@, p@.len() as int);
                match body {
                    ArrowBody::Value(x) => match self.expr(x, d, s0) {
                        Ok((v, s1)) => Ok(
                            (
                                SxV::Fn {
                                    params,
                                    body: seq![SxV::Ret(Some(Box::new(v)))],
                                    arrow: true,
                                },
                                s1.left(),
                            ),
                        ),
                        Err(m) => Err(m),
                    },
                    ArrowBody::Block(b) => match self.stmts(b@, b@.len() as int, d, s0) {
                        Ok((body, s1)) => Ok((SxV::Fn { params, body, arrow: true }, s1.left())),
                        Err(m) => Err(m),
                    },
                }
            },
            Expr::Class(c, _) => match self.parent(c, d, s) {
                Ok((p, s1)) => Ok((SxV::Class { name: class_name(*c), super_: p }, s1)),
                Err(m) => Err(m),
            },
            Expr::Template { at, .. } => Err("выражение @"@ + decimal(*at as nat)),
            Expr::Other { at, .. } => Err("выражение @"@ + decimal(*at as nat)),
        }
    }

    /// What a class extends.
    pub open spec fn parent(&self, c: &ClassDef, d: int, s: Scopes) -> Result<
        (Option<Box<SxV>>, Scopes),
        Seq<char>,
    >
        decreases c, 0int,
    {
        match c.parent {
            Some(p) => match self.expr(&p, d, s) {
                Ok((x, s1)) => Ok((Some(Box::new(x)), s1)),
                Err(m) => Err(m),
            },
            None => Ok((None, s)),
        }
    }

    /// What an assignment of the value `v` writes to.
    pub open spec fn target(&self, t: &Target, v: SxV, d: int, s: Scopes) -> Result<
        (SxV, Scopes),
        Seq<char>,
    >
        decreases t, 0int,
    {
        match t {
            Target::Ident(n) => Ok((SxV::Ref(n@), s.written(n@).bound(n@, v))),
            Target::Member { obj, prop } => match self.expr(obj, d, s) {
                Ok((o, s1)) => Ok((SxV::Member { obj: Box::new(o), prop: prop@ }, s1)),
                Err(m) => Err(m),
            },
            Target::Index { obj, idx } => match self.expr(obj, d, s) {
                Ok((o, s1)) => match self.expr(idx, d, s1) {
                    Ok((i, s2)) => Ok((access(o, i), s2)),
                    Err(m) => Err(m),
                },
                Err(m) => Err(m),
            },
            Target::Other => Err("цель присваивания вне модели"@),
        }
    }

    /// The first `n` expressions of a list.
    pub open spec fn exprs(&self, v: Seq<Expr>, n: int, d: int, s: Scopes) -> Result<
        (Seq<SxV>, Scopes),
        Seq<char>,
    >
        decreases v, n,
    {
        if n <= 0 || n > v.len() {
            Ok((seq![], s))
        } else {
            match self.exprs(v, n - 1, d, s) {
                Ok((out, s1)) => match self.expr(&v[n - 1], d, s1) {
                    Ok((x, s2)) => Ok((out.push(x), s2)),
                    Err(m) => Err(m),
                },
                Err(m) => Err(m),
            }
        }
    }

    /// The first `n` items of a list in which a spread is an error.
    pub open spec fn items(
        &self,
        v: Seq<Option<Expr>>,
        n: int,
        d: int,
        s: Scopes,
        spread: Seq<char>,
    ) -> Result<(Seq<SxV>, Scopes), Seq<char>>
        decreases v, n,
    {
        if n <= 0 || n > v.len() {
            Ok((seq![], s))
        } else {
            match self.items(v, n - 1, d, s, spread) {
                Ok((out, s1)) => match v[n - 1] {
                    Some(x) => match self.expr(&x, d, s1) {
                        Ok((x, s2)) => Ok((out.push(x), s2)),
                        Err(m) => Err(m),
                    },
                    None => Err(spread),
                },
                Err(m) => Err(m),
            }
        }
    }

    /// The key of a property.
    pub open spec fn key(&self, k: &Key, d: int, s: Scopes) -> Result<
        (Seq<char>, Scopes),
        Seq<char>,
    >
        decreases k, 0int,
    {
        match k {
            Key::Name(n) => Ok((n@, s)),
            Key::Expr(e) => match e {
                Expr::Str { value, .. } => Ok((value@, s)),
                Expr::Num(n) => Ok((self.fl.num_text(*n), s)),
                _ => match self.expr(e, d, s) {
                    Ok((x, s1)) => match x {
                        SxV::Str(t) => Ok((t, s1)),
                        SxV::Num(n) => Ok((self.fl.num_text(n), s1)),
                        _ => Err("вычисляемый ключ объекта"@),
                    },
                    Err(m) => Err(m),
                },
            },
            Key::Other => Err("ключ объекта вне модели"@),
        }
    }

    /// The first `n` properties of an object.
    pub open spec fn fields(&self, v: Seq<Option<Prop>>, n: int, d: int, s: Scopes) -> Result<
        (Seq<(Seq<char>, SxV)>, Scopes),
        Seq<char>,
    >
        decreases v, n,
    {
        if n <= 0 || n > v.len() {
            Ok((seq![], s))
        } else {
            match self.fields(v, n - 1, d, s) {
                Ok((out, s1)) => match v[n - 1] {
                    Some(p) => match self.key(&p.key, d, s1) {
                        Ok((k, s2)) => match self.expr(&p.value, d, s2) {
                            Ok((x, s3)) => Ok((out.push((k, x)), s3)),
                            Err(m) => Err(m),
                        },
                        Err(m) => Err(m),
                    },
                    None => Err("spread в объекте"@),
                },
                Err(m) => Err(m),
            }
        }
    }

    /// The first `n` declarations; a pattern is an error.
    pub open spec fn decls(
        &self,
        v: Seq<Decl>,
        n: int,
        d: int,
        s: Scopes,
        pattern: Seq<char>,
    ) -> Result<(Seq<SxV>, Scopes), Seq<char>>
        decreases v, n,
    {
        if n <= 0 || n > v.len() {
            Ok((seq![], s))
        } else {
            match self.decls(v, n - 1, d, s, pattern) {
                Ok((out, s1)) => match v[n - 1].name {
                    Some(name) => match v[n - 1].init {
                        Some(i) => match self.expr(&i, d, s1) {
                            Ok((x, s2)) => Ok(
                                (
                                    out.push(SxV::Var { name: name@, value: Box::new(x) }),
                                    s2.written(name@).bound(name@, x),
                                ),
                            ),
                            Err(m) => Err(m),
                        },
                        None => Ok(
                            (
                                out.push(SxV::Var { name: name@, value: Box::new(SxV::Undef) }),
                                s1.written(name@).bound(name@, SxV::Undef),
                            ),
                        ),
                    },
                    None => Err(pattern),
                },
                Err(m) => Err(m),
            }
        }
    }

    /// The first `n` statements of a list.
    pub open spec fn stmts(&self, v: Seq<Stmt>, n: int, d: int, s: Scopes) -> Result<
        (Seq<SxV>, Scopes),
        Seq<char>,
    >
        decreases v, n,
    {
        if n <= 0 || n > v.len() {
            Ok((seq![], s))
        } else {
            match self.stmts(v, n - 1, d, s) {
                Ok((out, s1)) => match self.stmt(&v[n - 1], d, s1) {
                    Ok((x, s2)) => Ok(
                        (
                            match x {
                                Some(x) => out.push(x),
                                None => out,
                            },
                            s2,
                        ),
                    ),
                    Err(m) => Err(m),
                },
                Err(m) => Err(m),
            }
        }
    }

    /// A list of statements in a scope of its own.
    pub open spec fn block(&self, v: Seq<Stmt>, d: int, s: Scopes) -> Result<
        (Seq<SxV>, Scopes),
        Seq<char>,
    >
        decreases v, v.len() + 1,
    {
        match self.stmts(v, v.len() as int, d, s.entered()) {
            Ok((out, s1)) => Ok((out, s1.left())),
            Err(m) => Err(m),
        }
    }

    /// The statements of a branch or a loop body.
    pub open spec fn one(&self, st: &Stmt, d: int, s: Scopes) -> Result<
        (Seq<SxV>, Scopes),
        Seq<char>,
    >
        decreases st, 2int,
    {
        match st {
            Stmt::Block(b) => self.block(b@, d, s),
            _ => match self.stmt(st, d, s) {
                Ok((x, s1)) => Ok(
                    (
                        match x {
                            Some(x) => seq![x],
                            None => seq![],
                        },
                        s1,
                    ),
                ),
                Err(m) => Err(m),
            },
        }
    }

    /// An expression that may be missing.
    pub open spec fn maybe(&self, e: Option<Expr>, d: int, s: Scopes) -> Result<
        (Option<Box<SxV>>, Scopes),
        Seq<char>,
    >
        decreases e, 0int,
    {
        match e {
            Some(x) => match self.expr(&x, d, s) {
                Ok((v, s1)) => Ok((Some(Box::new(v)), s1)),
                Err(m) => Err(m),
            },
            None => Ok((None, s)),
        }
    }

    /// A statement at nesting depth `d`: folded, or dropped where it only declares
    /// a function or never runs.
    pub open spec fn stmt(&self, st: &Stmt, d: int, s: Scopes) -> Result<
        (Option<SxV>, Scopes),
        Seq<char>,
    >
        decreases st, 1int,
    {
        if d > 64 {
            Err("превышена глубина вложенности"@)
        } else {
            self.stmt_inner(st, d + 1, s)
        }
    }

    /// What a statement whose depth has been counted comes to.
    pub open spec fn stmt_inner(&self, st: &Stmt, d: int, s: Scopes) -> Result<
        (Option<SxV>, Scopes),
        Seq<char>,
    >
        decreases st, 0int,
    {
        match st {
            Stmt::Value(e) => match self.expr(e, d, s) {
                Ok((x, s1)) => Ok((Some(x), s1)),
                Err(m) => Err(m),
            },
            Stmt::Vars(v) => match self.decls(
                v@,
                v@.len() as int,
                d,
                s,
                "деструктуризация вне модели"@,
            ) {
                Ok((out, s1)) => Ok((Some(SxV::Sequence(out)), s1)),
                Err(m) => Err(m),
            },
            Stmt::Func(f) => match f.name {
                None => Ok((None, s)),
                Some(n) => if s.find(n@) is Some {
                    Ok((None, s))
                } else {
                    let params = plain_params(f.params@, f.params@.len() as int);
                    match f.body {
                        Some(b) => match self.stmts(b@, b@.len() as int, d, s.entered()) {
                            Ok((body, s1)) => Ok(
                                (
                                    None,
                                    s1.left().bound(n@, SxV::Fn { params, body, arrow: false }),
                                ),
                            ),
                            Err(m) => Err(m),
                        },
                        None => Ok(
                            (
                                None,
                                s.entered().left().bound(
                                    n@,
                                    SxV::Fn { params, body: seq![], arrow: false },
                                ),
                            ),
                        ),
                    }
                },
            },
            Stmt::Return(x) => match self.maybe(*x, d, s) {
                Ok((v, s1)) => Ok((Some(SxV::Ret(v)), s1)),
                Err(m) => Err(m),
            },
            Stmt::Block(b) => match self.block(b@, d, s) {
                Ok((out, s1)) => Ok((Some(SxV::Block(out)), s1)),
                Err(m) => Err(m),
            },
            Stmt::If { test, yes, no } => match self.expr(test, d, s) {
                Ok((t, s1)) => match truth(t) {
                    Some(b) => if b {
                        match self.one(yes, d, s1) {
                            Ok((out, s2)) => Ok((Some(SxV::Sequence(out)), s2)),
                            Err(m) => Err(m),
                        }
                    } else {
                        match no {
                            Some(a) => match self.one(a, d, s1) {
                                Ok((out, s2)) => Ok((Some(SxV::Sequence(out)), s2)),
                                Err(m) => Err(m),
                            },
                            None => Ok((None, s1)),
                        }
                    },
                    None => match self.one(yes, d, s1) {
                        Ok((c, s2)) => match no {
                            Some(x) => match self.one(x, d, s2) {
                                Ok((a, s3)) => Ok((Some(SxV::If { t: Box::new(t), c, a }), s3)),
                                Err(m) => Err(m),
                            },
                            None => Ok((Some(SxV::If { t: Box::new(t), c, a: seq![] }), s2)),
                        },
                        Err(m) => Err(m),
                    },
                },
                Err(m) => Err(m),
            },
            Stmt::While { test, body } => match self.expr(test, d, s) {
                Ok((t, s1)) => match self.one(body, d, s1) {
                    Ok((b, s2)) => Ok((Some(SxV::While { t: Box::new(t), body: b }), s2)),
                    Err(m) => Err(m),
                },
                Err(m) => Err(m),
            },
            Stmt::For { init, test, update, body } => match self.for_init(init, d, s) {
                Ok((i, s1)) => match self.maybe(*test, d, s1) {
                    Ok((t, s2)) => match self.maybe(*update, d, s2) {
                        Ok((u, s3)) => match self.one(body, d, s3) {
                            Ok((b, s4)) => Ok((Some(SxV::For { init: i, t, u, body: b }), s4)),
                            Err(m) => Err(m),
                        },
                        Err(m) => Err(m),
                    },
                    Err(m) => Err(m),
                },
                Err(m) => Err(m),
            },
            Stmt::Try { block, handler, finalizer } => match self.block(block@, d, s) {
                Ok((b, s1)) => match self.handler(*handler, d, s1) {
                    Ok((h, s2)) => match finalizer {
                        Some(f) => match self.block(f@, d, s2) {
                            Ok((f, s3)) => Ok((Some(SxV::Try { body: b, handler: h, fin: f }), s3)),
                            Err(m) => Err(m),
                        },
                        None => Ok((Some(SxV::Try { body: b, handler: h, fin: seq![] }), s2)),
                    },
                    Err(m) => Err(m),
                },
                Err(m) => Err(m),
            },
            Stmt::Throw(x) => match self.expr(x, d, s) {
                Ok((v, s1)) => Ok((Some(SxV::Throw(Box::new(v))), s1)),
                Err(m) => Err(m),
            },
            Stmt::Break => Ok((Some(SxV::Break), s)),
            Stmt::Class(c) => match self.parent(c, d, s) {
                Ok((p, s1)) => {
                    let v = SxV::Class { name: class_name(*c), super_: p };
                    Ok((Some(v), s1.bound(class_name(*c), v)))
                },
                Err(m) => Err(m),
            },
            Stmt::DoWhile { at, .. } => Err("statement @"@ + decimal(*at as nat)),
            Stmt::ForOf { at, .. } => Err("statement @"@ + decimal(*at as nat)),
            Stmt::ForIn { at, .. } => Err("statement @"@ + decimal(*at as nat)),
            Stmt::Switch { at, .. } => Err("statement @"@ + decimal(*at as nat)),
            Stmt::Labeled { at, .. } => Err("statement @"@ + decimal(*at as nat)),
            Stmt::Other(at) => Err("statement @"@ + decimal(*at as nat)),
        }
    }

    /// The first part of a `for` head.
    pub open spec fn for_init(&self, i: &ForInit, d: int, s: Scopes) -> Result<
        (Option<Box<SxV>>, Scopes),
        Seq<char>,
    >
        decreases i, 0int,
    {
        match i {
            ForInit::Empty => Ok((None, s)),
            ForInit::Vars(v) => match self.decls(
                v@,
                v@.len() as int,
                d,
                s,
                "for-init деструктуризация"@,
            ) {
                Ok((out, s1)) => Ok((Some(Box::new(SxV::Sequence(out))), s1)),
                Err(m) => Err(m),
            },
            ForInit::Value(e) => match self.expr(e, d, s) {
                Ok((x, s1)) => Ok((Some(Box::new(x)), s1)),
                Err(m) => Err(m),
            },
        }
    }

    /// The `catch` part of a `try`.
    pub open spec fn handler(&self, h: Option<Handler>, d: int, s: Scopes) -> Result<
        (Option<(Seq<char>, Seq<SxV>)>, Scopes),
        Seq<char>,
    >
        decreases h, 0int,
    {
        match h {
            Some(h) => match self.block(h.body@, d, s.entered()) {
                Ok((b, s1)) => Ok(
                    (
                        Some(
                            (
                                match h.param {
                                    Some(p) => p@,
                                    None => "_"@,
                                },
                                b,
                            ),
                        ),
                        s1.left(),
                    ),
                ),
                Err(m) => Err(m),
            },
            None => Ok((None, s)),
        }
    }
}

impl World {
    /// Where the first `k` fail, all do.
    proof fn lemma_exprs_fail(&self, v: Seq<Expr>, k: int, n: int, d: int, s: Scopes)
        requires
            0 <= k <= n <= v.len(),
            self.exprs(v, k, d, s) is Err,
        ensures
            self.exprs(v, n, d, s) == self.exprs(v, k, d, s),
        decreases n,
    {
        if k < n {
            self.lemma_exprs_fail(v, k, n - 1, d, s);
        }
    }

    /// Where the first `k` fail, all do.
    proof fn lemma_items_fail(&self, v: Seq<Option<Expr>>, k: int, n: int, d: int, s: Scopes, spread: Seq<char>)
        requires
            0 <= k <= n <= v.len(),
            self.items(v, k, d, s, spread) is Err,
        ensures
            self.items(v, n, d, s, spread) == self.items(v, k, d, s, spread),
        decreases n,
    {
        if k < n {
            self.lemma_items_fail(v, k, n - 1, d, s, spread);
        }
    }

    /// Where the first `k` fail, all do.
    proof fn lemma_fields_fail(&self, v: Seq<Option<Prop>>, k: int, n: int, d: int, s: Scopes)
        requires
            0 <= k <= n <= v.len(),
            self.fields(v, k, d, s) is Err,
        ensures
            self.fields(v, n, d, s) == self.fields(v, k, d, s),
        decreases n,
    {
        if k < n {
            self.lemma_fields_fail(v, k, n - 1, d, s);
        }
    }

    /// Where the first `k` fail, all do.
    proof fn lemma_decls_fail(&self, v: Seq<Decl>, k: int, n: int, d: int, s: Scopes, pattern: Seq<char>)
        requires
            0 <= k <= n <= v.len(),
            self.decls(v, k, d, s, pattern) is Err,
        ensures
            self.decls(v, n, d, s, pattern) == self.decls(v, k, d, s, pattern),
        decreases n,
    {
        if k < n {
            self.lemma_decls_fail(v, k, n - 1, d, s, pattern);
        }
    }

    /// Where the first `k` fail, all do.
    proof fn lemma_stmts_fail(&self, v: Seq<Stmt>, k: int, n: int, d: int, s: Scopes)
        requires
            0 <= k <= n <= v.len(),
            self.stmts(v, k, d, s) is Err,
        ensures
            self.stmts(v, n, d, s) == self.stmts(v, k, d, s),
        decreases n,
    {
        if k < n {
            self.lemma_stmts_fail(v, k, n - 1, d, s);
        }
    }
}

// ------------------------------------------------------------------- the propagator

/// A scope as a map; what was bound last counts.
pub open spec fn scope_map(v: Seq<(String, Sx)>) -> Map<Seq<char>, SxV>
    decreases v.len(),
{
    if v.len() == 0 {
        Map::empty()
    } else {
        scope_map(v.drop_last()).insert(v.last().0@, v.last().1@)
    }
}

/// Constant propagation in progress.
pub struct Deob<'a, F> {
    pub fl: &'a F,
    pub strings: &'a Vec<String>,
    pub st: &'a Statics,
    pub scopes: Vec<Vec<(String, Sx)>>,
    pub mutated: Vec<String>,
    pub depth: u32,
}

/// Some text.
pub open spec fn opt_text(o: Option<&Sx>) -> Option<SxV> {
    match o {
        Some(x) => Some(x@),
        None => None,
    }
}

impl<'a, F: FloatOps> Deob<'a, F> {
    /// What propagation goes by.
    pub open spec fn world(&self) -> World {
        World { fl: self.fl.model(), strings: texts(self.strings@), st: self.st@ }
    }

    /// What is known of the names.
    pub open spec fn state(&self) -> Scopes {
        Scopes {
            scopes: Seq::new(self.scopes@.len(), |i: int| scope_map(self.scopes@[i]@)),
            log: texts(self.mutated@),
        }
    }

    /// The parts that do not change, and a string table that is not empty.
    pub open spec fn fit(&self) -> bool {
        self.fl.ok() && self.strings@.len() > 0 && self.scopes@.len() > 0
    }

    /// `new` differs from `self` in nothing but what is known of the names.
    pub open spec fn kept(&self, new: &Self) -> bool {
        &&& new.fl == self.fl
        &&& new.strings == self.strings
        &&& new.st == self.st
        &&& new.depth == self.depth
        &&& new.scopes@.len() == self.scopes@.len()
    }

    fn lookup<'b>(&'b self, name: &str) -> (r: Option<&'b Sx>)
        ensures
            opt_text(r) == self.state().find(name@),
    {
        let ghost all = self.state().scopes;
        let mut k: usize = self.scopes.len();
        while k > 0
            invariant
                k <= self.scopes@.len(),
                all == self.state().scopes,
                known(all, self.scopes@.len() as int, name@) == known(all, k as int, name@),
            decreases k,
        {
            k -= 1;
            let sc = &self.scopes[k];
            assert(all[k as int] == scope_map(sc@));
            let mut j: usize = sc.len();
            assert(sc@.take(j as int) =~= sc@);
            while j > 0
                invariant
                    j <= sc@.len(),
                    all[k as int] == scope_map(sc@),
                    scope_map(sc@).contains_key(name@) == scope_map(sc@.take(j as int)).contains_key(
                        name@,
                    ),
                    scope_map(sc@)[name@] == scope_map(sc@.take(j as int))[name@],
                    k < self.scopes@.len(),
                    all == self.state().scopes,
                    sc@ == self.scopes@[k as int]@,
                    known(all, self.scopes@.len() as int, name@) == known(all, k + 1, name@),
                decreases j,
            {
                j -= 1;
                proof {
                    let part = sc@.take(j + 1);
                    assert(part.drop_last() =~= sc@.take(j as int));
                    assert(part.last() == sc@[j as int]);
                }
                if str_eq(sc[j].0.as_str(), name) {
                    return Some(&sc[j].1);
                }
            }
            assert(sc@.take(0) =~= seq![]);
        }
        None
    }

    fn bind(&mut self, name: String, v: Sx)
        requires
            old(self).scopes@.len() > 0,
        ensures
            old(self).kept(final(self)),
            final(self).state() == old(self).state().bound(name@, v@),
    {
        let ghost before = self.state();
        let ghost was = self.scopes@;
        let last: usize = self.scopes.len() - 1;
        self.scopes[last].push((name, v));
        proof {
            let now = self.scopes@[last as int]@;
            assert(now.drop_last() =~= was[last as int]@);
            assert(self.state().scopes =~= before.bound(name@, v@).scopes);
        }
    }

    fn mark(&mut self, name: &str)
        ensures
            old(self).kept(final(self)),
            final(self).state() == old(self).state().written(name@),
    {
        let ghost before = self.state();
        self.mutated.push(own(name));
        assert(self.state().log =~= before.log.push(name@));
        assert(self.state().scopes =~= before.scopes);
    }

    fn push_scope(&mut self)
        ensures
            final(self).fl == old(self).fl,
            final(self).strings == old(self).strings,
            final(self).st == old(self).st,
            final(self).depth == old(self).depth,
            final(self).scopes@.len() == old(self).scopes@.len() + 1,
            final(self).state() == old(self).state().entered(),
    {
        let ghost before = self.state();
        self.scopes.push(Vec::new());
        assert(self.state().scopes =~= before.entered().scopes);
    }

    fn pop_scope(&mut self)
        requires
            old(self).scopes@.len() > 0,
        ensures
            final(self).fl == old(self).fl,
            final(self).strings == old(self).strings,
            final(self).st == old(self).st,
            final(self).depth == old(self).depth,
            final(self).scopes@.len() == old(self).scopes@.len() - 1,
            final(self).state() == old(self).state().left(),
    {
        let ghost before = self.state();
        let _ = self.scopes.pop();
        assert(self.state().scopes =~= before.left().scopes);
    }

    fn written_often(&self, name: &str) -> (r: bool)
        ensures
            r == (times(self.state().log, name@) > 1),
    {
        let ghost log = self.state().log;
        let mut n: usize = 0;
        let mut i: usize = 0;
        assert(log.take(0) =~= seq![]);
        while i < self.mutated.len()
            invariant
                i <= self.mutated@.len(),
                n <= i,
                log == texts(self.mutated@),
                n == times(log.take(i as int), name@),
            decreases self.mutated@.len() - i,
        {
            proof {
                let part = log.take(i + 1);
                assert(part.drop_last() =~= log.take(i as int));
                assert(part.last() == self.mutated@[i as int]@);
            }
            if str_eq(self.mutated[i].as_str(), name) {
                n += 1;
            }
            i += 1;
        }
        assert(log.take(i as int) =~= log);
        n > 1
    }

    fn decode(&self, name: &str, arg: u64) -> (r: Option<String>)
        requires
            self.fit(),
        ensures
            match self.world().decoded(name@, arg) {
                Some(t) => r matches Some(s) && s@ == t,
                None => r is None,
            },
    {
        let d = match resolve_alias(self.st, name) {
            Some(d) => d,
            None => return None,
        };
        let delta: u64 = match self.st.delta_of(d) {
            Some(x) => x,
            None => return None,
        };
        let n: usize = self.strings.len();
        let i: usize = mod_i64(sub64(to_i64(arg), to_i64(delta)), n);
        assert(texts(self.strings@)[i as int] == self.strings@[i as int]@);
        Some(own(self.strings[i].as_str()))
    }

    fn subst(&self, name: &str) -> (r: Sx)
        ensures
            r@ == self.state().subst(name@, name@, 16),
    {
        let mut key: String = own(name);
        let mut k: u32 = 0;
        while k < 16
            invariant
                k <= 16,
                self.state().subst(name@, name@, 16) == self.state().subst(
                    key@,
                    name@,
                    (16 - k) as nat,
                ),
            decreases 16 - k,
        {
            if self.written_often(key.as_str()) {
                return Sx::Ref(key);
            }
            let found = match self.lookup(key.as_str()) {
                Some(x) => x,
                None => return Sx::Ref(key),
            };
            match found {
                Sx::Num(_) | Sx::Str(_) | Sx::Bool(_) | Sx::Null | Sx::Undef | Sx::Member { .. }
                | Sx::Index { .. } | Sx::Call { .. } | Sx::New { .. } => return found.clone(),
                Sx::Ref(alias) => {
                    if str_eq(alias.as_str(), key.as_str()) {
                        return Sx::Ref(key);
                    }
                    if self.lookup(alias.as_str()).is_none() {
                        return Sx::Ref(own(alias.as_str()));
                    }
                    key = own(alias.as_str());
                },
                _ => return Sx::Ref(key),
            }
            k += 1;
        }
        Sx::Ref(own(name))
    }

    /// `r` and `self` are the outcome `w`.
    pub open spec fn made(&self, r: Result<Sx, String>, w: Result<(SxV, Scopes), Seq<char>>) -> bool {
        match w {
            Ok((x, s)) => r matches Ok(y) && y@ == x && self.state() == s,
            Err(m) => r matches Err(t) && t@ == m,
        }
    }

    /// As `made`, for a list.
    pub open spec fn made_all(
        &self,
        r: Result<Vec<Sx>, String>,
        w: Result<(Seq<SxV>, Scopes), Seq<char>>,
    ) -> bool {
        match w {
            Ok((x, s)) => r matches Ok(y) && models(y@) == x && self.state() == s,
            Err(m) => r matches Err(t) && t@ == m,
        }
    }

    /// As `made`, for what may be dropped.
    pub open spec fn made_maybe(
        &self,
        r: Result<Option<Sx>, String>,
        w: Result<(Option<SxV>, Scopes), Seq<char>>,
    ) -> bool {
        match w {
            Ok((x, s)) => {
                &&& r matches Ok(y)
                &&& match x {
                    Some(a) => y matches Some(b) && b@ == a,
                    None => y is None,
                }
                &&& self.state() == s
            },
            Err(m) => r matches Err(t) && t@ == m,
        }
    }

    /// As `made`, for what may be missing.
    pub open spec fn made_opt(
        &self,
        r: Result<Option<Box<Sx>>, String>,
        w: Result<(Option<Box<SxV>>, Scopes), Seq<char>>,
    ) -> bool {
        match w {
            Ok((x, s)) => r matches Ok(y) && opt_model(y) == x && self.state() == s,
            Err(m) => r matches Err(t) && t@ == m,
        }
    }

    fn expr(&mut self, e: &Expr) -> (r: Result<Sx, String>)
        requires
            old(self).fit(),
        ensures
            r is Ok ==> old(self).kept(final(self)),
            final(self).made(
                r,
                old(self).world().expr(e, old(self).depth as int, old(self).state()),
            ),
        decreases e, 3int,
    {
        if self.depth > 64 {
            return Err(own("превышена глубина выражения"));
        }
        self.depth = self.depth + 1;
        let r = self.expr_inner(e);
        if r.is_ok() {
            self.depth = self.depth - 1;
        }
        r
    }

    fn expr_inner(&mut self, e: &Expr) -> (r: Result<Sx, String>)
        requires
            old(self).fit(),
        ensures
            r is Ok ==> old(self).kept(final(self)),
            final(self).made(
                r,
                old(self).world().inner(e, old(self).depth as int, old(self).state()),
            ),
        decreases e, 2int,
    {
        match e {
            Expr::Paren(p) => self.expr_inner(p),
            Expr::Num(n) => Ok(Sx::Num(*n)),
            Expr::Str { value, .. } => Ok(Sx::Str(own(value.as_str()))),
            Expr::Bool(b, _) => Ok(Sx::Bool(*b)),
            Expr::Null(_) => Ok(Sx::Null),
            Expr::This(_) => Ok(Sx::Ref(own("this"))),
            Expr::Ident(n, _) => {
                if str_eq(n.as_str(), "undefined") {
                    return Ok(Sx::Undef);
                }
                Ok(self.subst(n.as_str()))
            },
            Expr::Member { .. } | Expr::Index { .. } | Expr::New { .. } => self.access_expr(e),
            Expr::Call { .. } => self.call(e),
            Expr::Unary { .. } | Expr::Update { .. } | Expr::Binary { .. } | Expr::Logical { .. } =>
            self.operation(e),
            Expr::Cond { .. } | Expr::Assign { .. } | Expr::Await { .. } => self.choice(e),
            Expr::Sequence(..) | Expr::Array(..) | Expr::Object(..) => self.list(e),
            Expr::Func(..) | Expr::Arrow { .. } | Expr::Class(..) => self.definition(e),
            Expr::Template { at, .. } | Expr::Other { at, .. } => {
                Err(join2("выражение @", dec_u64(*at as u64).as_str()))
            },
        }
    }

    fn access_expr(&mut self, e: &Expr) -> (r: Result<Sx, String>)
        requires
            old(self).fit(),
            e is Member || e is Index || e is New,
        ensures
            r is Ok ==> old(self).kept(final(self)),
            final(self).made(
                r,
                old(self).world().inner(e, old(self).depth as int, old(self).state()),
            ),
        decreases e, 1int,
    {
        match e {
            Expr::Member { obj, prop, .. } => {
                let o = match self.expr(obj) {
                    Ok(x) => x,
                    Err(m) => return Err(m),
                };
                Ok(Sx::Member { obj: Box::new(o), prop: own(prop.as_str()) })
            },
            Expr::Index { obj, idx, .. } => {
                let o = match self.expr(obj) {
                    Ok(x) => x,
                    Err(m) => return Err(m),
                };
                let i = match self.expr(idx) {
                    Ok(x) => x,
                    Err(m) => return Err(m),
                };
                Ok(make_access(o, i))
            },
            Expr::New { callee, args, .. } => {
                let c = match self.expr(callee) {
                    Ok(x) => x,
                    Err(m) => return Err(m),
                };
                let a = match self.items(args, "spread в new") {
                    Ok(x) => x,
                    Err(m) => return Err(m),
                };
                Ok(Sx::New { callee: Box::new(c), args: a })
            },
            _ => Ok(Sx::Undef),
        }
    }

    fn operation(&mut self, e: &Expr) -> (r: Result<Sx, String>)
        requires
            old(self).fit(),
            e is Unary || e is Update || e is Binary || e is Logical,
        ensures
            r is Ok ==> old(self).kept(final(self)),
            final(self).made(
                r,
                old(self).world().inner(e, old(self).depth as int, old(self).state()),
            ),
        decreases e, 1int,
    {
        match e {
            Expr::Unary { op, arg } => {
                let a = match self.expr(arg) {
                    Ok(x) => x,
                    Err(m) => return Err(m),
                };
                Ok(fold_un(*op, a, self.fl))
            },
            Expr::Update { op, target, .. } => match target {
                Some(n) => {
                    self.mark(n.as_str());
                    let t = Sx::Ref(own(n.as_str()));
                    let one = Sx::Num(ONE);
                    assert(t@ == SxV::Ref(n@) && one@ == SxV::Num(ONE));
                    Ok(Sx::Assign { target: Box::new(t), op: *op, value: Box::new(one) })
                },
                None => Err(own("цель ++ вне модели")),
            },
            Expr::Binary { op, l, r } => {
                let a = match self.expr(l) {
                    Ok(x) => x,
                    Err(m) => return Err(m),
                };
                let b = match self.expr(r) {
                    Ok(x) => x,
                    Err(m) => return Err(m),
                };
                Ok(fold_bin(*op, a, b, self.fl))
            },
            Expr::Logical { op, l, r, .. } => {
                let a = match self.expr(l) {
                    Ok(x) => x,
                    Err(m) => return Err(m),
                };
                let b = match self.expr(r) {
                    Ok(x) => x,
                    Err(m) => return Err(m),
                };
                if let Some(t) = truthy(&a) {
                    if str_eq(op, "&&") {
                        return Ok(if t { b } else { a });
                    }
                    if str_eq(op, "||") {
                        return Ok(if t { a } else { b });
                    }
                }
                Ok(Sx::Log { op: *op, l: Box::new(a), r: Box::new(b) })
            },
            _ => Ok(Sx::Undef),
        }
    }

    fn choice(&mut self, e: &Expr) -> (r: Result<Sx, String>)
        requires
            old(self).fit(),
            e is Cond || e is Assign || e is Await,
        ensures
            r is Ok ==> old(self).kept(final(self)),
            final(self).made(
                r,
                old(self).world().inner(e, old(self).depth as int, old(self).state()),
            ),
        decreases e, 1int,
    {
        match e {
            Expr::Cond { test, yes, no, .. } => {
                let t = match self.expr(test) {
                    Ok(x) => x,
                    Err(m) => return Err(m),
                };
                let a = match self.expr(yes) {
                    Ok(x) => x,
                    Err(m) => return Err(m),
                };
                let b = match self.expr(no) {
                    Ok(x) => x,
                    Err(m) => return Err(m),
                };
                if let Some(v) = truthy(&t) {
                    return Ok(if v { a } else { b });
                }
                Ok(Sx::Cond { t: Box::new(t), c: Box::new(a), a: Box::new(b) })
            },
            Expr::Assign { op, target, value, .. } => {
                let v = match self.expr(value) {
                    Ok(x) => x,
                    Err(m) => return Err(m),
                };
                let t = match self.target(target, &v) {
                    Ok(x) => x,
                    Err(m) => return Err(m),
                };
                Ok(Sx::Assign { target: Box::new(t), op: plain_assign(*op), value: Box::new(v) })
            },
            Expr::Await { arg, .. } => self.expr(arg),
            _ => Ok(Sx::Undef),
        }
    }

    fn list(&mut self, e: &Expr) -> (r: Result<Sx, String>)
        requires
            old(self).fit(),
            e is Sequence || e is Array || e is Object,
        ensures
            r is Ok ==> old(self).kept(final(self)),
            final(self).made(
                r,
                old(self).world().inner(e, old(self).depth as int, old(self).state()),
            ),
        decreases e, 1int,
    {
        match e {
            Expr::Sequence(v, _) => {
                let mut out = match self.exprs(v) {
                    Ok(x) => x,
                    Err(m) => return Err(m),
                };
                assert(models(out@).len() == out@.len());
                if out.len() == 1 {
                    assert(models(out@)[0] == out@[0].model());
                    if let Some(x) = out.pop() {
                        return Ok(x);
                    }
                }
                Ok(Sx::Sequence(out))
            },
            Expr::Array(v, _) => match self.items(v, "spread/дыра в массиве") {
                Ok(out) => Ok(Sx::Arr(out)),
                Err(m) => Err(m),
            },
            Expr::Object(v, _) => match self.fields(v) {
                Ok(out) => Ok(Sx::Obj(out)),
                Err(m) => Err(m),
            },
            _ => Ok(Sx::Undef),
        }
    }

    fn definition(&mut self, e: &Expr) -> (r: Result<Sx, String>)
        requires
            old(self).fit(),
            e is Func || e is Arrow || e is Class,
        ensures
            r is Ok ==> old(self).kept(final(self)),
            final(self).made(
                r,
                old(self).world().inner(e, old(self).depth as int, old(self).state()),
            ),
        decreases e, 1int,
    {
        match e {
            Expr::Func(f, _) => {
                let params = names_in(&f.params);
                self.push_scope();
                self.bind_params(&f.params);
                let body = match &f.body {
                    Some(b) => match self.stmts(b) {
                        Ok(x) => x,
                        Err(m) => return Err(m),
                    },
                    None => {
                        let none: Vec<Sx> = Vec::new();
                        assert(models(none@) =~= seq![]);
                        none
                    },
                };
                self.pop_scope();
                Ok(Sx::Fn { params, body, arrow: false })
            },
            Expr::Arrow { params: p, body, .. } => {
                let params = names_in(p);
                self.push_scope();
                self.bind_params(p);
                let out = match body {
                    ArrowBody::Value(x) => {
                        let v = match self.expr(x) {
                            Ok(v) => v,
                            Err(m) => return Err(m),
                        };
                        let ret = Sx::Ret(Some(Box::new(v)));
                        let mut one: Vec<Sx> = Vec::new();
                        one.push(ret);
                        assert(models(one@) =~= seq![SxV::Ret(Some(Box::new(v@)))]) by {
                            assert(one@[0].model() == SxV::Ret(Some(Box::new(v@))));
                        }
                        one
                    },
                    ArrowBody::Block(b) => match self.stmts(b) {
                        Ok(x) => x,
                        Err(m) => return Err(m),
                    },
                };
                self.pop_scope();
                Ok(Sx::Fn { params, body: out, arrow: true })
            },
            Expr::Class(c, _) => {
                let p = match self.parent(c) {
                    Ok(x) => x,
                    Err(m) => return Err(m),
                };
                Ok(Sx::Class { name: name_of_class(c), super_: p })
            },
            _ => Ok(Sx::Undef),
        }
    }

    fn bind_params(&mut self, params: &Vec<Option<String>>)
        requires
            old(self).scopes@.len() > 0,
        ensures
            old(self).kept(final(self)),
            final(self).state() == old(self).state().with_params(params@, params@.len() as int),
    {
        let ghost start = self.state();
        let mut i: usize = 0;
        while i < params.len()
            invariant
                i <= params@.len(),
                self.scopes@.len() > 0,
                old(self).kept(self),
                self.state() == start.with_params(params@, i as int),
            decreases params@.len() - i,
        {
            if let Some(p) = &params[i] {
                self.bind(own(p.as_str()), Sx::Ref(own(p.as_str())));
            }
            i += 1;
        }
    }

    fn parent(&mut self, c: &ClassDef) -> (r: Result<Option<Box<Sx>>, String>)
        requires
            old(self).fit(),
        ensures
            r is Ok ==> old(self).kept(final(self)),
            final(self).made_opt(
                r,
                old(self).world().parent(c, old(self).depth as int, old(self).state()),
            ),
        decreases c, 0int,
    {
        match &c.parent {
            Some(p) => match self.expr(p) {
                Ok(x) => Ok(Some(Box::new(x))),
                Err(m) => Err(m),
            },
            None => Ok(None),
        }
    }

    fn target(&mut self, t: &Target, v: &Sx) -> (r: Result<Sx, String>)
        requires
            old(self).fit(),
        ensures
            r is Ok ==> old(self).kept(final(self)),
            final(self).made(
                r,
                old(self).world().target(t, v@, old(self).depth as int, old(self).state()),
            ),
        decreases t, 0int,
    {
        match t {
            Target::Ident(n) => {
                self.mark(n.as_str());
                self.bind(own(n.as_str()), v.clone());
                Ok(Sx::Ref(own(n.as_str())))
            },
            Target::Member { obj, prop } => {
                let o = match self.expr(obj) {
                    Ok(x) => x,
                    Err(m) => return Err(m),
                };
                Ok(Sx::Member { obj: Box::new(o), prop: own(prop.as_str()) })
            },
            Target::Index { obj, idx } => {
                let o = match self.expr(obj) {
                    Ok(x) => x,
                    Err(m) => return Err(m),
                };
                let i = match self.expr(idx) {
                    Ok(x) => x,
                    Err(m) => return Err(m),
                };
                Ok(make_access(o, i))
            },
            Target::Other => Err(own("цель присваивания вне модели")),
        }
    }

    fn exprs(&mut self, v: &Vec<Expr>) -> (r: Result<Vec<Sx>, String>)
        requires
            old(self).fit(),
        ensures
            r is Ok ==> old(self).kept(final(self)),
            final(self).made_all(
                r,
                old(self).world().exprs(
                    v@,
                    v@.len() as int,
                    old(self).depth as int,
                    old(self).state(),
                ),
            ),
        decreases v, 0int,
    {
        let ghost w = self.world();
        let ghost d = self.depth as int;
        let ghost s = self.state();
        let mut out: Vec<Sx> = Vec::new();
        let mut i: usize = 0;
        assert(models(out@) =~= seq![]);
        while i < v.len()
            invariant
                i <= v@.len(),
                self.fit(),
                old(self).kept(self),
                w == old(self).world(),
                d == old(self).depth,
                s == old(self).state(),
                w.exprs(v@, i as int, d, s) == Ok::<(Seq<SxV>, Scopes), Seq<char>>(
                    (models(out@), self.state()),
                ),
            decreases v@.len() - i,
        {
            let ghost before = models(out@);
            let x = match self.expr(&v[i]) {
                Ok(x) => x,
                Err(m) => {
                    proof {
                        w.lemma_exprs_fail(v@, i + 1, v@.len() as int, d, s);
                    }
                    return Err(m);
                },
            };
            out.push(x);
            assert(models(out@) =~= before.push(x@));
            i += 1;
        }
        Ok(out)
    }

    fn items(&mut self, v: &Vec<Option<Expr>>, spread: &str) -> (r: Result<Vec<Sx>, String>)
        requires
            old(self).fit(),
        ensures
            r is Ok ==> old(self).kept(final(self)),
            final(self).made_all(
                r,
                old(self).world().items(
                    v@,
                    v@.len() as int,
                    old(self).depth as int,
                    old(self).state(),
                    spread@,
                ),
            ),
        decreases v, 0int,
    {
        let ghost w = self.world();
        let ghost d = self.depth as int;
        let ghost s = self.state();
        let mut out: Vec<Sx> = Vec::new();
        let mut i: usize = 0;
        assert(models(out@) =~= seq![]);
        while i < v.len()
            invariant
                i <= v@.len(),
                self.fit(),
                old(self).kept(self),
                w == old(self).world(),
                d == old(self).depth,
                s == old(self).state(),
                w.items(v@, i as int, d, s, spread@) == Ok::<(Seq<SxV>, Scopes), Seq<char>>(
                    (models(out@), self.state()),
                ),
            decreases v@.len() - i,
        {
            let ghost before = models(out@);
            proof {
                if w.items(v@, i + 1, d, s, spread@) is Err {
                    w.lemma_items_fail(v@, i + 1, v@.len() as int, d, s, spread@);
                }
            }
            match &v[i] {
                Some(e) => {
                    assert(decreases_to!(v => v@[i as int]->0));
                    let x = match self.expr(e) {
                        Ok(x) => x,
                        Err(m) => return Err(m),
                    };
                    out.push(x);
                    assert(models(out@) =~= before.push(x@));
                },
                None => return Err(own(spread)),
            }
            i += 1;
        }
        Ok(out)
    }

    /// As `made`, for the key of a property.
    pub open spec fn made_key(
        &self,
        r: Result<String, String>,
        w: Result<(Seq<char>, Scopes), Seq<char>>,
    ) -> bool {
        match w {
            Ok((x, s)) => r matches Ok(y) && y@ == x && self.state() == s,
            Err(m) => r matches Err(t) && t@ == m,
        }
    }

    fn key(&mut self, k: &Key) -> (r: Result<String, String>)
        requires
            old(self).fit(),
        ensures
            r is Ok ==> old(self).kept(final(self)),
            final(self).made_key(
                r,
                old(self).world().key(k, old(self).depth as int, old(self).state()),
            ),
        decreases k, 0int,
    {
        match k {
            Key::Name(n) => Ok(own(n.as_str())),
            Key::Expr(e) => match e {
                Expr::Str { value, .. } => Ok(own(value.as_str())),
                Expr::Num(n) => Ok(format_js_num(*n, self.fl)),
                _ => match self.expr(e) {
                    Ok(x) => match x {
                        Sx::Str(t) => Ok(t),
                        Sx::Num(n) => Ok(format_js_num(n, self.fl)),
                        _ => Err(own("вычисляемый ключ объекта")),
                    },
                    Err(m) => Err(m),
                },
            },
            Key::Other => Err(own("ключ объекта вне модели")),
        }
    }

    /// As `made`, for the properties of an object.
    pub open spec fn made_fields(
        &self,
        r: Result<Vec<(String, Sx)>, String>,
        w: Result<(Seq<(Seq<char>, SxV)>, Scopes), Seq<char>>,
    ) -> bool {
        match w {
            Ok((x, s)) => r matches Ok(y) && field_models(y@) == x && self.state() == s,
            Err(m) => r matches Err(t) && t@ == m,
        }
    }

    fn fields(&mut self, v: &Vec<Option<Prop>>) -> (r: Result<Vec<(String, Sx)>, String>)
        requires
            old(self).fit(),
        ensures
            r is Ok ==> old(self).kept(final(self)),
            final(self).made_fields(
                r,
                old(self).world().fields(
                    v@,
                    v@.len() as int,
                    old(self).depth as int,
                    old(self).state(),
                ),
            ),
        decreases v, 0int,
    {
        let ghost w = self.world();
        let ghost d = self.depth as int;
        let ghost s = self.state();
        let mut out: Vec<(String, Sx)> = Vec::new();
        let mut i: usize = 0;
        assert(field_models(out@) =~= seq![]);
        while i < v.len()
            invariant
                i <= v@.len(),
                self.fit(),
                old(self).kept(self),
                w == old(self).world(),
                d == old(self).depth,
                s == old(self).state(),
                w.fields(v@, i as int, d, s) == Ok::<
                    (Seq<(Seq<char>, SxV)>, Scopes),
                    Seq<char>,
                >((field_models(out@), self.state())),
            decreases v@.len() - i,
        {
            let ghost before = field_models(out@);
            proof {
                if w.fields(v@, i + 1, d, s) is Err {
                    w.lemma_fields_fail(v@, i + 1, v@.len() as int, d, s);
                }
            }
            match &v[i] {
                Some(p) => {
                    assert(decreases_to!(v => v@[i as int]->0));
                    assert(decreases_to!(v => v@[i as int]->0.key));
                    assert(decreases_to!(v => v@[i as int]->0.value));
                    let k = match self.key(&p.key) {
                        Ok(x) => x,
                        Err(m) => return Err(m),
                    };
                    let x = match self.expr(&p.value) {
                        Ok(x) => x,
                        Err(m) => return Err(m),
                    };
                    out.push((k, x));
                    assert(field_models(out@) =~= before.push((k@, x@)));
                },
                None => return Err(own("spread в объекте")),
            }
            i += 1;
        }
        Ok(out)
    }

    fn decls(&mut self, v: &Vec<Decl>, pattern: &str) -> (r: Result<Vec<Sx>, String>)
        requires
            old(self).fit(),
        ensures
            r is Ok ==> old(self).kept(final(self)),
            final(self).made_all(
                r,
                old(self).world().decls(
                    v@,
                    v@.len() as int,
                    old(self).depth as int,
                    old(self).state(),
                    pattern@,
                ),
            ),
        decreases v, 0int,
    {
        let ghost w = self.world();
        let ghost d = self.depth as int;
        let ghost s = self.state();
        let mut out: Vec<Sx> = Vec::new();
        let mut i: usize = 0;
        assert(models(out@) =~= seq![]);
        while i < v.len()
            invariant
                i <= v@.len(),
                self.fit(),
                old(self).kept(self),
                w == old(self).world(),
                d == old(self).depth,
                s == old(self).state(),
                w.decls(v@, i as int, d, s, pattern@) == Ok::<(Seq<SxV>, Scopes), Seq<char>>(
                    (models(out@), self.state()),
                ),
            decreases v@.len() - i,
        {
            let ghost before = models(out@);
            proof {
                if w.decls(v@, i + 1, d, s, pattern@) is Err {
                    w.lemma_decls_fail(v@, i + 1, v@.len() as int, d, s, pattern@);
                }
            }
            let name = match &v[i].name {
                Some(n) => n,
                None => return Err(own(pattern)),
            };
            let x = match &v[i].init {
                Some(e) => {
                    assert(decreases_to!(v => v@[i as int].init));
                    assert(decreases_to!(v => v@[i as int].init->0));
                    match self.expr(e) {
                        Ok(x) => x,
                        Err(m) => return Err(m),
                    }
                },
                None => Sx::Undef,
            };
            self.mark(name.as_str());
            self.bind(own(name.as_str()), x.clone());
            let item = Sx::Var { name: own(name.as_str()), value: Box::new(x) };
            let ghost m = item@;
            out.push(item);
            assert(models(out@) =~= before.push(m));
            i += 1;
        }
        Ok(out)
    }

    /// Folds a list of statements.
    pub fn stmts(&mut self, v: &Vec<Stmt>) -> (r: Result<Vec<Sx>, String>)
        requires
            old(self).fit(),
        ensures
            r is Ok ==> old(self).kept(final(self)),
            final(self).made_all(
                r,
                old(self).world().stmts(
                    v@,
                    v@.len() as int,
                    old(self).depth as int,
                    old(self).state(),
                ),
            ),
        decreases v, 0int,
    {
        let ghost w = self.world();
        let ghost d = self.depth as int;
        let ghost s = self.state();
        let mut out: Vec<Sx> = Vec::new();
        let mut i: usize = 0;
        assert(models(out@) =~= seq![]);
        while i < v.len()
            invariant
                i <= v@.len(),
                self.fit(),
                old(self).kept(self),
                w == old(self).world(),
                d == old(self).depth,
                s == old(self).state(),
                w.stmts(v@, i as int, d, s) == Ok::<(Seq<SxV>, Scopes), Seq<char>>(
                    (models(out@), self.state()),
                ),
            decreases v@.len() - i,
        {
            let ghost before = models(out@);
            proof {
                if w.stmts(v@, i + 1, d, s) is Err {
                    w.lemma_stmts_fail(v@, i + 1, v@.len() as int, d, s);
                }
            }
            match self.stmt(&v[i]) {
                Ok(x) => {
                    if let Some(x) = x {
                        let ghost m = x@;
                        out.push(x);
                        assert(models(out@) =~= before.push(m));
                    }
                },
                Err(m) => return Err(m),
            }
            i += 1;
        }
        Ok(out)
    }

    fn block(&mut self, v: &Vec<Stmt>) -> (r: Result<Vec<Sx>, String>)
        requires
            old(self).fit(),
        ensures
            r is Ok ==> old(self).kept(final(self)),
            final(self).made_all(
                r,
                old(self).world().block(v@, old(self).depth as int, old(self).state()),
            ),
        decreases v, 1int,
    {
        self.push_scope();
        let out = match self.stmts(v) {
            Ok(x) => x,
            Err(m) => return Err(m),
        };
        self.pop_scope();
        Ok(out)
    }

    fn one(&mut self, st: &Stmt) -> (r: Result<Vec<Sx>, String>)
        requires
            old(self).fit(),
        ensures
            r is Ok ==> old(self).kept(final(self)),
            final(self).made_all(
                r,
                old(self).world().one(st, old(self).depth as int, old(self).state()),
            ),
        decreases st, 4int,
    {
        match st {
            Stmt::Block(b) => self.block(b),
            _ => match self.stmt(st) {
                Ok(x) => {
                    let mut out: Vec<Sx> = Vec::new();
                    assert(models(out@) =~= seq![]);
                    if let Some(x) = x {
                        let ghost m = x@;
                        out.push(x);
                        assert(models(out@) =~= seq![m]);
                    }
                    Ok(out)
                },
                Err(m) => Err(m),
            },
        }
    }

    fn maybe(&mut self, e: &Option<Expr>) -> (r: Result<Option<Box<Sx>>, String>)
        requires
            old(self).fit(),
        ensures
            r is Ok ==> old(self).kept(final(self)),
            final(self).made_opt(
                r,
                old(self).world().maybe(*e, old(self).depth as int, old(self).state()),
            ),
        decreases e, 0int,
    {
        match e {
            Some(x) => match self.expr(x) {
                Ok(v) => Ok(Some(Box::new(v))),
                Err(m) => Err(m),
            },
            None => Ok(None),
        }
    }

    fn stmt(&mut self, st: &Stmt) -> (r: Result<Option<Sx>, String>)
        requires
            old(self).fit(),
        ensures
            r is Ok ==> old(self).kept(final(self)),
            final(self).made_maybe(
                r,
                old(self).world().stmt(st, old(self).depth as int, old(self).state()),
            ),
        decreases st, 3int,
    {
        if self.depth > 64 {
            return Err(own("превышена глубина вложенности"));
        }
        self.depth = self.depth + 1;
        let r = self.stmt_inner(st);
        if r.is_ok() {
            self.depth = self.depth - 1;
        }
        r
    }

    fn stmt_inner(&mut self, st: &Stmt) -> (r: Result<Option<Sx>, String>)
        requires
            old(self).fit(),
        ensures
            r is Ok ==> old(self).kept(final(self)),
            final(self).made_maybe(
                r,
                old(self).world().stmt_inner(st, old(self).depth as int, old(self).state()),
            ),
        decreases st, 2int,
    {
        match st {
            Stmt::Value(e) => match self.expr(e) {
                Ok(x) => Ok(Some(x)),
                Err(m) => Err(m),
            },
            Stmt::Vars(v) => match self.decls(v, "деструктуризация вне модели") {
                Ok(out) => Ok(Some(Sx::Sequence(out))),
                Err(m) => Err(m),
            },
            Stmt::Return(x) => match self.maybe(x) {
                Ok(v) => Ok(Some(Sx::Ret(v))),
                Err(m) => Err(m),
            },
            Stmt::Block(b) => match self.block(b) {
                Ok(out) => Ok(Some(Sx::Block(out))),
                Err(m) => Err(m),
            },
            Stmt::Throw(x) => match self.expr(x) {
                Ok(v) => Ok(Some(Sx::Throw(Box::new(v)))),
                Err(m) => Err(m),
            },
            Stmt::Break => Ok(Some(Sx::Break)),
            Stmt::Func(f) => self.func_stmt(f),
            Stmt::Class(_) => self.class_stmt(st),
            Stmt::If { .. } => self.if_stmt(st),
            Stmt::While { .. } | Stmt::For { .. } => self.loop_stmt(st),
            Stmt::Try { .. } => self.try_stmt(st),
            Stmt::DoWhile { at, .. } | Stmt::ForOf { at, .. } | Stmt::ForIn { at, .. }
            | Stmt::Switch { at, .. } | Stmt::Labeled { at, .. } | Stmt::Other(at) => {
                Err(join2("statement @", dec_u64(*at as u64).as_str()))
            },
        }
    }

    fn func_stmt(&mut self, f: &Func) -> (r: Result<Option<Sx>, String>)
        requires
            old(self).fit(),
        ensures
            r is Ok ==> old(self).kept(final(self)),
            final(self).made_maybe(
                r,
                old(self).world().stmt_inner(
                    &Stmt::Func(*f),
                    old(self).depth as int,
                    old(self).state(),
                ),
            ),
        decreases f, 0int,
    {
        let name = match &f.name {
            Some(n) => n,
            None => return Ok(None),
        };
        if self.lookup(name.as_str()).is_some() {
            return Ok(None);
        }
        let params = names_in(&f.params);
        self.push_scope();
        let body = match &f.body {
            Some(b) => match self.stmts(b) {
                Ok(x) => x,
                Err(m) => return Err(m),
            },
            None => {
                let none: Vec<Sx> = Vec::new();
                assert(models(none@) =~= seq![]);
                none
            },
        };
        self.pop_scope();
        self.bind(own(name.as_str()), Sx::Fn { params, body, arrow: false });
        Ok(None)
    }

    fn class_stmt(&mut self, st: &Stmt) -> (r: Result<Option<Sx>, String>)
        requires
            old(self).fit(),
            st is Class,
        ensures
            r is Ok ==> old(self).kept(final(self)),
            final(self).made_maybe(
                r,
                old(self).world().stmt_inner(st, old(self).depth as int, old(self).state()),
            ),
        decreases st, 1int,
    {
        if let Stmt::Class(c) = st {
            let p = match self.parent(c) {
                Ok(x) => x,
                Err(m) => return Err(m),
            };
            let v = Sx::Class { name: name_of_class(c), super_: p };
            self.bind(name_of_class(c), v.clone());
            return Ok(Some(v));
        }
        Ok(None)
    }

    fn if_stmt(&mut self, st: &Stmt) -> (r: Result<Option<Sx>, String>)
        requires
            old(self).fit(),
            st is If,
        ensures
            r is Ok ==> old(self).kept(final(self)),
            final(self).made_maybe(
                r,
                old(self).world().stmt_inner(st, old(self).depth as int, old(self).state()),
            ),
        decreases st, 1int,
    {
        if let Stmt::If { test, yes, no } = st {
            let t = match self.expr(test) {
                Ok(x) => x,
                Err(m) => return Err(m),
            };
            if let Some(b) = truthy(&t) {
                let branch: &Stmt = if b {
                    yes
                } else {
                    match no {
                        Some(a) => a,
                        None => return Ok(None),
                    }
                };
                return match self.one(branch) {
                    Ok(out) => Ok(Some(Sx::Sequence(out))),
                    Err(m) => Err(m),
                };
            }
            let c = match self.one(yes) {
                Ok(x) => x,
                Err(m) => return Err(m),
            };
            let a = match no {
                Some(x) => match self.one(x) {
                    Ok(x) => x,
                    Err(m) => return Err(m),
                },
                None => {
                    let none: Vec<Sx> = Vec::new();
                    assert(models(none@) =~= seq![]);
                    none
                },
            };
            return Ok(Some(Sx::If { t: Box::new(t), c, a }));
        }
        Ok(None)
    }

    fn for_init(&mut self, i: &ForInit) -> (r: Result<Option<Box<Sx>>, String>)
        requires
            old(self).fit(),
        ensures
            r is Ok ==> old(self).kept(final(self)),
            final(self).made_opt(
                r,
                old(self).world().for_init(i, old(self).depth as int, old(self).state()),
            ),
        decreases i, 0int,
    {
        match i {
            ForInit::Empty => Ok(None),
            ForInit::Vars(v) => match self.decls(v, "for-init деструктуризация") {
                Ok(out) => Ok(Some(Box::new(Sx::Sequence(out)))),
                Err(m) => Err(m),
            },
            ForInit::Value(e) => match self.expr(e) {
                Ok(x) => Ok(Some(Box::new(x))),
                Err(m) => Err(m),
            },
        }
    }

    fn loop_stmt(&mut self, st: &Stmt) -> (r: Result<Option<Sx>, String>)
        requires
            old(self).fit(),
            st is While || st is For,
        ensures
            r is Ok ==> old(self).kept(final(self)),
            final(self).made_maybe(
                r,
                old(self).world().stmt_inner(st, old(self).depth as int, old(self).state()),
            ),
        decreases st, 1int,
    {
        match st {
            Stmt::While { test, body } => {
                let t = match self.expr(test) {
                    Ok(x) => x,
                    Err(m) => return Err(m),
                };
                let b = match self.one(body) {
                    Ok(x) => x,
                    Err(m) => return Err(m),
                };
                Ok(Some(Sx::While { t: Box::new(t), body: b }))
            },
            Stmt::For { init, test, update, body } => {
                let i = match self.for_init(init) {
                    Ok(x) => x,
                    Err(m) => return Err(m),
                };
                let t = match self.maybe(test) {
                    Ok(x) => x,
                    Err(m) => return Err(m),
                };
                let u = match self.maybe(update) {
                    Ok(x) => x,
                    Err(m) => return Err(m),
                };
                let b = match self.one(body) {
                    Ok(x) => x,
                    Err(m) => return Err(m),
                };
                Ok(Some(Sx::For { init: i, t, u, body: b }))
            },
            _ => Ok(None),
        }
    }

    /// As `made`, for a `catch` part.
    pub open spec fn made_handler(
        &self,
        r: Result<Option<(String, Vec<Sx>)>, String>,
        w: Result<(Option<(Seq<char>, Seq<SxV>)>, Scopes), Seq<char>>,
    ) -> bool {
        match w {
            Ok((x, s)) => {
                &&& r matches Ok(y)
                &&& match x {
                    Some(a) => y matches Some(b) && b.0@ == a.0 && models(b.1@) == a.1,
                    None => y is None,
                }
                &&& self.state() == s
            },
            Err(m) => r matches Err(t) && t@ == m,
        }
    }

    fn handler(&mut self, h: &Option<Handler>) -> (r: Result<Option<(String, Vec<Sx>)>, String>)
        requires
            old(self).fit(),
        ensures
            r is Ok ==> old(self).kept(final(self)),
            final(self).made_handler(
                r,
                old(self).world().handler(*h, old(self).depth as int, old(self).state()),
            ),
        decreases h, 0int,
    {
        match h {
            Some(h) => {
                let name = match &h.param {
                    Some(p) => own(p.as_str()),
                    None => own("_"),
                };
                self.push_scope();
                let b = match self.block(&h.body) {
                    Ok(x) => x,
                    Err(m) => return Err(m),
                };
                self.pop_scope();
                Ok(Some((name, b)))
            },
            None => Ok(None),
        }
    }

    fn try_stmt(&mut self, st: &Stmt) -> (r: Result<Option<Sx>, String>)
        requires
            old(self).fit(),
            st is Try,
        ensures
            r is Ok ==> old(self).kept(final(self)),
            final(self).made_maybe(
                r,
                old(self).world().stmt_inner(st, old(self).depth as int, old(self).state()),
            ),
        decreases st, 1int,
    {
        if let Stmt::Try { block, handler, finalizer } = st {
            let body = match self.block(block) {
                Ok(x) => x,
                Err(m) => return Err(m),
            };
            let h = match self.handler(handler) {
                Ok(x) => x,
                Err(m) => return Err(m),
            };
            let fin = match finalizer {
                Some(f) => match self.block(f) {
                    Ok(x) => x,
                    Err(m) => return Err(m),
                },
                None => {
                    let none: Vec<Sx> = Vec::new();
                    assert(models(none@) =~= seq![]);
                    none
                },
            };
            return Ok(Some(Sx::Try { body, handler: h, fin }));
        }
        Ok(None)
    }

    fn call(&mut self, e: &Expr) -> (r: Result<Sx, String>)
        requires
            old(self).fit(),
            e is Call,
        ensures
            r is Ok ==> old(self).kept(final(self)),
            final(self).made(
                r,
                old(self).world().inner(e, old(self).depth as int, old(self).state()),
            ),
        decreases e, 1int,
    {
        if let Expr::Call { callee, args, .. } = e {
            let first: Option<&Expr> = if args.len() > 0 { args[0].as_ref() } else { None };
            if let Some(name) = ident_of(callee) {
                let arg: Option<u64> = match first {
                    Some(x) => num_lit(x, self.fl),
                    None => None,
                };
                if let (true, Some(a)) = (resolve_alias(self.st, name).is_some(), arg) {
                    return match self.decode(name, a) {
                        Some(t) => Ok(Sx::Str(t)),
                        None => {
                            let mut m = own("декодер ");
                            m.push_str(name);
                            m.push_str("(");
                            m.push_str(self.fl.write(a).as_str());
                            m.push_str(") вне массива");
                            Err(m)
                        },
                    };
                }
                if str_eq(name, "parseInt") || str_eq(name, "Number") || str_eq(name, "String")
                    || str_eq(name, "Boolean") {
                    return match first {
                        Some(x) => {
                            assert(decreases_to!(e => args@[0]->0));
                            match self.expr(x) {
                                Ok(v) => Ok(convert(name, v, self.fl)),
                                Err(m) => Err(m),
                            }
                        },
                        None => Ok(make_call(name, None)),
                    };
                }
            }
            let c = match self.expr(callee) {
                Ok(x) => x,
                Err(m) => return Err(m),
            };
            let a = match self.items(args, "spread-аргумент") {
                Ok(x) => x,
                Err(m) => return Err(m),
            };
            return match fold_builtin(&c, &a) {
                Some(x) => Ok(x),
                None => Ok(Sx::Call { callee: Box::new(c), args: a }),
            };
        }
        Ok(Sx::Undef)
    }
}

fn make_access(o: Sx, i: Sx) -> (r: Sx)
    ensures
        r@ == access(o@, i@),
{
    match i {
        Sx::Str(p) => Sx::Member { obj: Box::new(o), prop: p },
        _ => Sx::Index { obj: Box::new(o), idx: Box::new(i) },
    }
}

fn make_call(name: &str, arg: Option<Sx>) -> (r: Sx)
    ensures
        r@ == plain_call(
            name@,
            match arg {
                Some(x) => seq![x@],
                None => seq![],
            },
        ),
{
    let mut args: Vec<Sx> = Vec::new();
    assert(models(args@) =~= seq![]);
    if let Some(x) = arg {
        let ghost m = x@;
        args.push(x);
        assert(models(args@) =~= seq![m]);
    }
    let c = Sx::Ref(own(name));
    assert(c@ == SxV::Ref(name@));
    Sx::Call { callee: Box::new(c), args }
}

fn plain_assign(op: &'static str) -> (r: &'static str)
    ensures
        r@ == assign_op(op@),
{
    if str_eq(op, "=") || str_eq(op, "+=") || str_eq(op, "-=") || str_eq(op, "*=") || str_eq(
        op,
        "/=",
    ) || str_eq(op, "%=") || str_eq(op, "^=") || str_eq(op, "&=") || str_eq(op, "|=") {
        op
    } else {
        "?="
    }
}

fn name_of_class(c: &ClassDef) -> (r: String)
    ensures
        r@ == class_name(*c),
{
    match &c.name {
        Some(n) => own(n.as_str()),
        None => {
            let s = String::new();
            assert(s@ =~= seq![]);
            s
        },
    }
}

fn names_in(params: &Vec<Option<String>>) -> (r: Vec<String>)
    ensures
        texts(r@) == plain_params(params@, params@.len() as int),
{
    let mut r: Vec<String> = Vec::new();
    let mut i: usize = 0;
    assert(texts(r@) =~= seq![]);
    while i < params.len()
        invariant
            i <= params@.len(),
            texts(r@) == plain_params(params@, i as int),
        decreases params@.len() - i,
    {
        let ghost before = texts(r@);
        if let Some(p) = &params[i] {
            r.push(own(p.as_str()));
            assert(texts(r@) =~= before.push(p@));
        }
        i += 1;
    }
    r
}

fn convert<F: FloatOps>(name: &str, v: Sx, fl: &F) -> (r: Sx)
    requires
        fl.ok(),
    ensures
        r@ == fl.model().converted(name@, v@),
{
    if str_eq(name, "parseInt") {
        match v {
            Sx::Str(s) => Sx::Num(crate::jsnum::js_parse_int(s.as_str(), fl)),
            Sx::Num(n) => Sx::Num(n),
            _ => make_call(name, Some(v)),
        }
    } else if str_eq(name, "Number") {
        match v {
            Sx::Str(s) => Sx::Num(js_to_number(s.as_str(), fl)),
            Sx::Num(n) => Sx::Num(n),
            Sx::Bool(b) => Sx::Num(if b { ONE } else { 0 }),
            Sx::Undef => Sx::Num(NAN),
            Sx::Null => Sx::Num(0),
            _ => make_call(name, Some(v)),
        }
    } else if str_eq(name, "String") {
        match v {
            Sx::Str(s) => Sx::Str(s),
            Sx::Num(n) => Sx::Str(format_js_num(n, fl)),
            Sx::Bool(b) => Sx::Str(if b { own("true") } else { own("false") }),
            Sx::Undef => Sx::Str(own("undefined")),
            Sx::Null => Sx::Str(own("null")),
            _ => make_call(name, Some(v)),
        }
    } else {
        match truthy(&v) {
            Some(b) => Sx::Bool(b),
            None => make_call(name, Some(v)),
        }
    }
}

fn fold_builtin(callee: &Sx, args: &Vec<Sx>) -> (r: Option<Sx>)
    ensures
        match builtin(callee@, models(args@)) {
            Some(x) => r matches Some(y) && y@ == x,
            None => r is None,
        },
{
    assert(models(args@).len() == args@.len());
    if let Some((obj, prop)) = callee.as_member() {
        if str_eq(prop, "charCodeAt") && args.len() == 1 {
            assert(models(args@)[0] == args@[0].model());
            if let (Some(s), Some(i)) = (obj.as_text(), args[0].as_num()) {
                if less_eq(0, i) {
                    let units = utf16_of(s);
                    let n: i64 = to_i64(i);
                    let inside: bool = 0 <= n && (n as u64) < units.len() as u64;
                    return Some(
                        Sx::Num(if inside { from_u64(units[n as usize] as u64) } else { NAN }),
                    );
                }
            }
        }
        if str_eq(prop, "length") {
            if let Some(s) = obj.as_text() {
                return Some(Sx::Num(from_u64(utf16_of(s).len() as u64)));
            }
            if let Some(v) = obj.as_arr() {
                return Some(Sx::Num(from_u64(v.len() as u64)));
            }
        }
    }
    None
}

} // verus!
