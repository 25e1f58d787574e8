//! What a challenge script declares: its string tables, the functions that look
//! strings up in them, other names for these, and the routine that turns the
//! table into its final order.
use vstd::prelude::*;

use crate::floats::{FloatOps, FloatsV};
use crate::jsnum::{negate, negated};
use crate::pipeline::fold::fold_arith;
use crate::pipeline::sx::texts;
use crate::pipeline::syntax::{ArrowBody, Decl, Expr, Func, Stmt, Target};
use crate::pipeline::walk::{each_stmt_deep, exprs_in_stmt, exprs_in_stmt_all, stmt_exprs, stmt_exprs_all, stmts_in_all};
use crate::text::{own, str_eq};

verus! {

// ------------------------------------------------------------------- small readers

/// The expression inside any parentheses.
pub open spec fn bare(e: &Expr) -> &Expr
    decreases e,
{
    match e {
        Expr::Paren(p) => bare(p),
        _ => e,
    }
}

/// The expression inside any parentheses.
pub fn unwrap_parens<'a>(e: &'a Expr) -> (r: &'a Expr)
    ensures
        r == bare(e),
    decreases e,
{
    match e {
        Expr::Paren(p) => unwrap_parens(p),
        _ => e,
    }
}

/// The name of a plain name.
pub open spec fn name_of(e: &Expr) -> Option<Seq<char>> {
    match e {
        Expr::Ident(s, _) => Some(s@),
        _ => None,
    }
}

/// The text `r` is the text `s`, and both are there or neither is.
pub open spec fn same_text(r: Option<&str>, s: Option<Seq<char>>) -> bool {
    match s {
        Some(t) => r matches Some(x) && x@ == t,
        None => r is None,
    }
}

/// The name of a plain name.
pub fn ident_of<'a>(e: &'a Expr) -> (r: Option<&'a str>)
    ensures
        same_text(r, name_of(e)),
{
    match e {
        Expr::Ident(s, _) => Some(s.as_str()),
        _ => None,
    }
}

impl FloatsV {
    /// The number that a constant expression denotes: a number, its negative, or
    /// an operation on two of them.
    pub open spec fn constant(&self, e: &Expr) -> Option<u64>
        decreases e,
    {
        match e {
            Expr::Paren(p) => self.constant(p),
            Expr::Num(n) => Some(*n),
            Expr::Unary { op, arg } => if op@ == "-"@ {
                match self.constant(arg) {
                    Some(n) => Some(negated(n)),
                    None => None,
                }
            } else {
                None
            },
            Expr::Binary { op, l, r } => match (self.constant(l), self.constant(r)) {
                (Some(a), Some(b)) => self.arith(op@, a, b),
                _ => None,
            },
            _ => None,
        }
    }
}

/// The number that a constant expression denotes.
pub fn num_lit<F: FloatOps>(e: &Expr, fl: &F) -> (r: Option<u64>)
    requires
        fl.ok(),
    ensures
        r == fl.model().constant(e),
    decreases e,
{
    match e {
        Expr::Paren(p) => num_lit(p, fl),
        Expr::Num(n) => Some(*n),
        Expr::Unary { op, arg } => {
            if !str_eq(op, "-") {
                return None;
            }
            match num_lit(arg, fl) {
                Some(n) => Some(negate(n)),
                None => None,
            }
        },
        Expr::Binary { op, l, r } => match (num_lit(l, fl), num_lit(r, fl)) {
            (Some(a), Some(b)) => fold_arith(op, a, b, fl),
            _ => None,
        },
        _ => None,
    }
}

/// The name that a call goes by: a plain name, or the property that is called.
pub open spec fn called(e: &Expr) -> Option<Seq<char>> {
    match bare(e) {
        Expr::Ident(s, _) => Some(s@),
        Expr::Member { prop, .. } => Some(prop@),
        Expr::Index { idx, .. } => match bare(idx) {
            Expr::Str { value, .. } => Some(value@),
            _ => None,
        },
        _ => None,
    }
}

fn call_name<'a>(e: &'a Expr) -> (r: Option<&'a str>)
    ensures
        same_text(r, called(e)),
{
    match unwrap_parens(e) {
        Expr::Ident(s, _) => Some(s.as_str()),
        Expr::Member { prop, .. } => Some(prop.as_str()),
        Expr::Index { idx, .. } => match unwrap_parens(idx) {
            Expr::Str { value, .. } => Some(value.as_str()),
            _ => None,
        },
        _ => None,
    }
}

// ------------------------------------------------------------------------- tables

/// The strings of an array literal that holds nothing but strings, twenty at
/// least.
pub open spec fn table(v: Seq<Option<Expr>>) -> Option<Seq<Seq<char>>> {
    if v.len() >= 20 && forall|i: int| 0 <= i < v.len() ==> (#[trigger] v[i]) is Some && v[i]->0 is Str {
        Some(Seq::new(v.len(), |i: int| v[i]->0->Str_value@))
    } else {
        None
    }
}

fn string_array(v: &Vec<Option<Expr>>) -> (r: Option<Vec<String>>)
    ensures
        match table(v@) {
            Some(t) => r matches Some(w) && texts(w@) == t,
            None => r is None,
        },
{
    if v.len() < 20 {
        return None;
    }
    let mut out: Vec<String> = Vec::new();
    let mut i: usize = 0;
    while i < v.len()
        invariant
            i <= v@.len(),
            out@.len() == i,
            forall|j: int| 0 <= j < i ==> (#[trigger] v@[j]) is Some && v@[j]->0 is Str,
            forall|j: int| 0 <= j < i ==> (#[trigger] out@[j])@ == v@[j]->0->Str_value@,
        decreases v@.len() - i,
    {
        let s = match &v[i] {
            Some(Expr::Str { value, .. }) => own(value.as_str()),
            _ => {
                assert(!(v@[i as int] is Some && v@[i as int]->0 is Str));
                return None;
            },
        };
        out.push(s);
        i += 1;
    }
    assert(texts(out@) =~= table(v@)->0);
    Some(out)
}

// ------------------------------------------------------------------- declarations

/// What a script declares, each list in the order of first mention: string
/// tables by name, lookup functions with the number they take off the index, and
/// other names.
pub struct Statics {
    pub providers: Vec<(String, Vec<String>)>,
    pub decoders: Vec<(String, u64)>,
    pub aliases: Vec<(String, String)>,
}

/// [`Statics`] as a mathematical value.
#[verifier::ext_equal]
pub struct StaticsV {
    pub providers: Seq<(Seq<char>, Seq<Seq<char>>)>,
    pub decoders: Seq<(Seq<char>, u64)>,
    pub aliases: Seq<(Seq<char>, Seq<char>)>,
}

impl View for Statics {
    type V = StaticsV;

    open spec fn view(&self) -> StaticsV {
        StaticsV {
            providers: Seq::new(
                self.providers@.len(),
                |i: int| (self.providers@[i].0@, texts(self.providers@[i].1@)),
            ),
            decoders: Seq::new(
                self.decoders@.len(),
                |i: int| (self.decoders@[i].0@, self.decoders@[i].1),
            ),
            aliases: Seq::new(
                self.aliases@.len(),
                |i: int| (self.aliases@[i].0@, self.aliases@[i].1@),
            ),
        }
    }
}

/// Where `key` stands first in a list, from place `i` on; the length if nowhere.
pub open spec fn place<T>(v: Seq<(Seq<char>, T)>, i: int, key: Seq<char>) -> int
    decreases v.len() - i,
{
    if i < 0 || i >= v.len() {
        v.len() as int
    } else if v[i].0 == key {
        i
    } else {
        place(v, i + 1, key)
    }
}

/// What a list holds under `key`.
pub open spec fn entry<T>(v: Seq<(Seq<char>, T)>, key: Seq<char>) -> Option<T> {
    let i = place(v, 0, key);
    if 0 <= i < v.len() { Some(v[i].1) } else { None }
}

/// The list with an entry under `key`, unless it has one.
pub open spec fn with_entry<T>(v: Seq<(Seq<char>, T)>, key: Seq<char>, x: T) -> Seq<(Seq<char>, T)> {
    if entry(v, key) is Some { v } else { v.push((key, x)) }
}

impl Statics {
    fn provider_at(&self, key: &str) -> (r: Option<usize>)
        ensures
            match r {
                Some(i) => i == place(self@.providers, 0, key@) && i < self.providers@.len(),
                None => entry(self@.providers, key@) is None,
            },
    {
        let mut i: usize = 0;
        while i < self.providers.len()
            invariant
                i <= self.providers@.len(),
                place(self@.providers, 0, key@) == place(self@.providers, i as int, key@),
            decreases self.providers@.len() - i,
        {
            if str_eq(self.providers[i].0.as_str(), key) {
                return Some(i);
            }
            i += 1;
        }
        None
    }

    fn decoder_at(&self, key: &str) -> (r: Option<usize>)
        ensures
            match r {
                Some(i) => i == place(self@.decoders, 0, key@) && i < self.decoders@.len()
                    && self.decoders@[i as int].0@ == key@,
                None => entry(self@.decoders, key@) is None,
            },
    {
        let mut i: usize = 0;
        while i < self.decoders.len()
            invariant
                i <= self.decoders@.len(),
                place(self@.decoders, 0, key@) == place(self@.decoders, i as int, key@),
            decreases self.decoders@.len() - i,
        {
            if str_eq(self.decoders[i].0.as_str(), key) {
                return Some(i);
            }
            i += 1;
        }
        None
    }

    fn alias_at(&self, key: &str) -> (r: Option<usize>)
        ensures
            match r {
                Some(i) => i == place(self@.aliases, 0, key@) && i < self.aliases@.len(),
                None => entry(self@.aliases, key@) is None,
            },
    {
        let mut i: usize = 0;
        while i < self.aliases.len()
            invariant
                i <= self.aliases@.len(),
                place(self@.aliases, 0, key@) == place(self@.aliases, i as int, key@),
            decreases self.aliases@.len() - i,
        {
            if str_eq(self.aliases[i].0.as_str(), key) {
                return Some(i);
            }
            i += 1;
        }
        None
    }

    /// The number that the lookup function `key` takes off its index.
    pub fn delta_of(&self, key: &str) -> (r: Option<u64>)
        ensures
            r == entry(self@.decoders, key@),
    {
        match self.decoder_at(key) {
            Some(i) => Some(self.decoders[i].1),
            None => None,
        }
    }

    fn add_provider(&mut self, key: &str, x: Vec<String>)
        ensures
            final(self)@ == (StaticsV {
                providers: with_entry(old(self)@.providers, key@, texts(x@)),
                ..old(self)@
            }),
    {
        let ghost before = self@;
        if self.provider_at(key).is_none() {
            self.providers.push((own(key), x));
        }
        assert(self@ =~= StaticsV {
            providers: with_entry(before.providers, key@, texts(x@)),
            ..before
        });
    }

    fn add_decoder(&mut self, key: &str, x: u64)
        ensures
            final(self)@ == (StaticsV {
                decoders: with_entry(old(self)@.decoders, key@, x),
                ..old(self)@
            }),
    {
        let ghost before = self@;
        if self.decoder_at(key).is_none() {
            self.decoders.push((own(key), x));
        }
        assert(self@ =~= StaticsV { decoders: with_entry(before.decoders, key@, x), ..before });
    }

    fn add_alias(&mut self, key: &str, x: &str)
        ensures
            final(self)@ == (StaticsV {
                aliases: with_entry(old(self)@.aliases, key@, x@),
                ..old(self)@
            }),
    {
        let ghost before = self@;
        if self.alias_at(key).is_none() {
            self.aliases.push((own(key), own(x)));
        }
        assert(self@ =~= StaticsV { aliases: with_entry(before.aliases, key@, x@), ..before });
    }
}

/// The lookup function that a name stands for, reached through at most `n - 1`
/// other names.
pub open spec fn resolved(st: StaticsV, name: Seq<char>, n: nat) -> Option<Seq<char>>
    decreases n,
{
    if n == 0 {
        None
    } else if entry(st.decoders, name) is Some {
        Some(name)
    } else {
        match entry(st.aliases, name) {
            Some(a) => resolved(st, a, (n - 1) as nat),
            None => None,
        }
    }
}

/// The lookup function that a name stands for.
pub open spec fn decoder(st: StaticsV, name: Seq<char>) -> Option<Seq<char>> {
    resolved(st, name, 16)
}

/// The lookup function that a name stands for.
pub fn resolve_alias<'a>(st: &'a Statics, name: &str) -> (r: Option<&'a str>)
    ensures
        same_text(r, decoder(st@, name@)),
{
    let mut cur: Option<&'a str> = None;
    let mut k: u32 = 0;
    while k < 16
        invariant
            k <= 16,
            decoder(st@, name@) == resolved(
                st@,
                match cur {
                    Some(c) => c@,
                    None => name@,
                },
                (16 - k) as nat,
            ),
        decreases 16 - k,
    {
        let key: &str = match cur {
            Some(c) => c,
            None => name,
        };
        if let Some(i) = st.decoder_at(key) {
            return Some(st.decoders[i].0.as_str());
        }
        match st.alias_at(key) {
            Some(i) => {
                cur = Some(st.aliases[i].1.as_str());
            },
            None => return None,
        }
        k += 1;
    }
    None
}

// ---------------------------------------------------------------------- collecting

/// A declared variable names a table, or is another name for a plain name or for
/// what is called to make it.
pub open spec fn noted_decl(st: StaticsV, d: Decl) -> StaticsV {
    match (d.name, d.init) {
        (Some(name), Some(init)) => match init {
            Expr::Array(v, _) => match table(v@) {
                Some(t) => StaticsV { providers: with_entry(st.providers, name@, t), ..st },
                None => st,
            },
            Expr::Ident(i, _) => StaticsV { aliases: with_entry(st.aliases, name@, i@), ..st },
            Expr::Call { callee, .. } => match name_of(&callee) {
                Some(n) => StaticsV { aliases: with_entry(st.aliases, name@, n), ..st },
                None => st,
            },
            _ => st,
        },
        _ => st,
    }
}

/// What the first `n` declarations add.
pub open spec fn noted_decls(st: StaticsV, v: Seq<Decl>, n: int) -> StaticsV
    decreases n,
{
    if n <= 0 || n > v.len() {
        st
    } else {
        noted_decl(noted_decls(st, v, n - 1), v[n - 1])
    }
}

/// A table declared inside a function goes by the function's name.
pub open spec fn noted_inner(st: StaticsV, fname: Seq<char>, v: Seq<Decl>, n: int) -> StaticsV
    decreases n,
{
    if n <= 0 || n > v.len() {
        st
    } else {
        let before = noted_inner(st, fname, v, n - 1);
        match v[n - 1].init {
            Some(Expr::Array(a, _)) => match table(a@) {
                Some(t) => StaticsV { providers: with_entry(before.providers, fname, t), ..before },
                None => before,
            },
            _ => before,
        }
    }
}

/// What the first `n` statements of the body of the function `fname` add.
pub open spec fn noted_body(st: StaticsV, fname: Seq<char>, v: Seq<Stmt>, n: int) -> StaticsV
    decreases n,
{
    if n <= 0 || n > v.len() {
        st
    } else {
        let before = noted_body(st, fname, v, n - 1);
        match v[n - 1] {
            Stmt::Vars(d) => noted_inner(before, fname, d@, d@.len() as int),
            _ => before,
        }
    }
}

impl FloatsV {
    /// `x = x - k`, `x -= k` and the like: the name and the number.
    pub open spec fn shifted(&self, e: &Expr) -> Option<(Seq<char>, u64)> {
        match e {
            Expr::Assign { op, target: Target::Ident(t), value, .. } => if op@ == "="@ {
                match **value {
                    Expr::Binary { op: b, l, r } => if name_of(&l) == Some(t@) && (b@ == "-"@ || b@
                        == "+"@ || b@ == "^"@) {
                        match self.constant(&r) {
                            Some(d) => Some((t@, d)),
                            None => None,
                        }
                    } else {
                        None
                    },
                    _ => None,
                }
            } else if op@ == "-="@ || op@ == "+="@ || op@ == "^="@ {
                match self.constant(value) {
                    Some(d) => Some((t@, d)),
                    None => None,
                }
            } else {
                None
            },
            _ => None,
        }
    }

    /// All such assignments among the first `n` expressions.
    pub open spec fn shifts(&self, v: Seq<&Expr>, n: int) -> Seq<(Seq<char>, u64)>
        decreases n,
    {
        if n <= 0 || n > v.len() {
            seq![]
        } else {
            match self.shifted(v[n - 1]) {
                Some(p) => self.shifts(v, n - 1).push(p),
                None => self.shifts(v, n - 1),
            }
        }
    }
}

/// `table[index]` with two plain names: the name of the index.
pub open spec fn indexed_by(e: &Expr) -> Option<Seq<char>> {
    match e {
        Expr::Index { obj, idx, .. } => match (name_of(obj), name_of(idx)) {
            (Some(_), Some(i)) => Some(i),
            _ => None,
        },
        _ => None,
    }
}

/// Some of the expressions looks something up by `name`.
pub open spec fn looks_up(v: Seq<&Expr>, name: Seq<char>) -> bool {
    exists|i: int| 0 <= i < v.len() && indexed_by(#[trigger] v[i]) == Some(name)
}

/// One of the shifted names is used for a lookup.
pub open spec fn shifted_lookup(v: Seq<&Expr>, subs: Seq<(Seq<char>, u64)>) -> bool {
    exists|i: int| 0 <= i < subs.len() && looks_up(v, #[trigger] subs[i].0)
}

impl FloatsV {
    /// A function that shifts an index and looks something up by it is a lookup
    /// function; its number is the first one that it takes off.
    pub open spec fn noted_func(&self, st: StaticsV, f: Func) -> StaticsV {
        match (f.name, f.body) {
            (Some(name), Some(body)) => {
                let a = noted_body(st, name@, body@, body@.len() as int);
                let v = exprs_in_stmt_all(body@, body@.len() as int);
                let subs = self.shifts(v, v.len() as int);
                if shifted_lookup(v, subs) {
                    StaticsV { decoders: with_entry(a.decoders, name@, subs[0].1), ..a }
                } else {
                    a
                }
            },
            _ => st,
        }
    }

    /// What the first `n` statements declare.
    pub open spec fn noted(&self, v: Seq<&Stmt>, n: int) -> StaticsV
        decreases n,
    {
        if n <= 0 || n > v.len() {
            StaticsV { providers: seq![], decoders: seq![], aliases: seq![] }
        } else {
            let st = self.noted(v, n - 1);
            match v[n - 1] {
                Stmt::Vars(d) => noted_decls(st, d@, d@.len() as int),
                Stmt::Func(f) => self.noted_func(st, *f),
                _ => st,
            }
        }
    }

    /// What a program declares, functions and classes included.
    pub open spec fn declared(&self, program: Seq<Stmt>) -> StaticsV {
        let v = stmts_in_all(program, program.len() as int);
        self.noted(v, v.len() as int)
    }
}

fn note_decls(st: &mut Statics, v: &Vec<Decl>)
    ensures
        final(st)@ == noted_decls(old(st)@, v@, v@.len() as int),
{
    let ghost start = st@;
    let mut i: usize = 0;
    while i < v.len()
        invariant
            i <= v@.len(),
            st@ == noted_decls(start, v@, i as int),
        decreases v@.len() - i,
    {
        if let (Some(name), Some(init)) = (&v[i].name, &v[i].init) {
            match init {
                Expr::Array(a, _) => {
                    if let Some(t) = string_array(a) {
                        st.add_provider(name.as_str(), t);
                    }
                },
                Expr::Ident(n, _) => st.add_alias(name.as_str(), n.as_str()),
                Expr::Call { callee, .. } => {
                    if let Some(n) = ident_of(callee) {
                        st.add_alias(name.as_str(), n);
                    }
                },
                _ => {},
            }
        }
        i += 1;
    }
}

fn note_inner(st: &mut Statics, fname: &str, v: &Vec<Decl>)
    ensures
        final(st)@ == noted_inner(old(st)@, fname@, v@, v@.len() as int),
{
    let ghost start = st@;
    let mut i: usize = 0;
    while i < v.len()
        invariant
            i <= v@.len(),
            st@ == noted_inner(start, fname@, v@, i as int),
        decreases v@.len() - i,
    {
        if let Some(Expr::Array(a, _)) = &v[i].init {
            if let Some(t) = string_array(a) {
                st.add_provider(fname, t);
            }
        }
        i += 1;
    }
}

fn note_body(st: &mut Statics, fname: &str, v: &Vec<Stmt>)
    ensures
        final(st)@ == noted_body(old(st)@, fname@, v@, v@.len() as int),
{
    let ghost start = st@;
    let mut i: usize = 0;
    while i < v.len()
        invariant
            i <= v@.len(),
            st@ == noted_body(start, fname@, v@, i as int),
        decreases v@.len() - i,
    {
        if let Stmt::Vars(d) = &v[i] {
            note_inner(st, fname, d);
        }
        i += 1;
    }
}

fn shift_of<'a, F: FloatOps>(e: &'a Expr, fl: &F) -> (r: Option<(&'a str, u64)>)
    requires
        fl.ok(),
    ensures
        match fl.model().shifted(e) {
            Some(p) => r matches Some(q) && q.0@ == p.0 && q.1 == p.1,
            None => r is None,
        },
{
    if let Expr::Assign { op, target, value, .. } = e {
        if let Target::Ident(t) = target {
            if str_eq(op, "=") {
                if let Expr::Binary { op: b, l, r } = &**value {
                    let same: bool = match ident_of(l) {
                        Some(n) => str_eq(n, t.as_str()),
                        None => false,
                    };
                    if same && (str_eq(b, "-") || str_eq(b, "+") || str_eq(b, "^")) {
                        if let Some(d) = num_lit(r, fl) {
                            return Some((t.as_str(), d));
                        }
                    }
                }
                return None;
            }
            if str_eq(op, "-=") || str_eq(op, "+=") || str_eq(op, "^=") {
                if let Some(d) = num_lit(value, fl) {
                    return Some((t.as_str(), d));
                }
            }
        }
    }
    None
}

fn index_name<'a>(e: &'a Expr) -> (r: Option<&'a str>)
    ensures
        same_text(r, indexed_by(e)),
{
    if let Expr::Index { obj, idx, .. } = e {
        if let (Some(_), Some(i)) = (ident_of(obj), ident_of(idx)) {
            return Some(i);
        }
    }
    None
}

fn does_look_up(v: &Vec<&Expr>, name: &str) -> (r: bool)
    ensures
        r == looks_up(v@, name@),
{
    let mut i: usize = 0;
    while i < v.len()
        invariant
            i <= v@.len(),
            forall|j: int| 0 <= j < i ==> indexed_by(#[trigger] v@[j]) != Some(name@),
        decreases v@.len() - i,
    {
        if let Some(n) = index_name(v[i]) {
            if str_eq(n, name) {
                return true;
            }
        }
        i += 1;
    }
    false
}

/// The number of the first shift, where one of the shifted names is looked up by.
fn lookup_delta<F: FloatOps>(v: &Vec<&Expr>, fl: &F) -> (r: Option<u64>)
    requires
        fl.ok(),
    ensures
        ({
            let subs = fl.model().shifts(v@, v@.len() as int);
            r == if shifted_lookup(v@, subs) { Some(subs[0].1) } else { None }
        }),
{
    let ghost m = fl.model();
    let mut first: Option<u64> = None;
    let mut hit: bool = false;
    let mut i: usize = 0;
    while i < v.len()
        invariant
            fl.ok(),
            m == fl.model(),
            i <= v@.len(),
            first == (if m.shifts(v@, i as int).len() > 0 {
                Some(m.shifts(v@, i as int)[0].1)
            } else {
                None
            }),
            hit == shifted_lookup(v@, m.shifts(v@, i as int)),
        decreases v@.len() - i,
    {
        let ghost before = m.shifts(v@, i as int);
        if let Some((t, d)) = shift_of(v[i], fl) {
            if first.is_none() {
                first = Some(d);
            }
            let now: bool = does_look_up(v, t);
            proof {
                let after = m.shifts(v@, i + 1);
                assert(after == before.push((t@, d)));
                assert(after[before.len() as int].0 == t@);
                assert(forall|j: int| 0 <= j < before.len() ==> after[j] == before[j]);
                if shifted_lookup(v@, before) {
                    let j = choose|j: int| 0 <= j < before.len() && looks_up(v@, #[trigger] before[j].0);
                    assert(looks_up(v@, after[j].0));
                }
                if now {
                    assert(looks_up(v@, after[before.len() as int].0));
                }
                if shifted_lookup(v@, after) && !now {
                    let j = choose|j: int| 0 <= j < after.len() && looks_up(v@, #[trigger] after[j].0);
                    assert(j < before.len());
                    assert(looks_up(v@, before[j].0));
                }
            }
            hit = hit || now;
        }
        i += 1;
    }
    if hit { first } else { None }
}

fn note_func<F: FloatOps>(st: &mut Statics, f: &Func, fl: &F)
    requires
        fl.ok(),
    ensures
        final(st)@ == fl.model().noted_func(old(st)@, *f),
{
    if let (Some(name), Some(body)) = (&f.name, &f.body) {
        note_body(st, name.as_str(), body);
        let mut v: Vec<&Expr> = Vec::new();
        stmt_exprs_all(body, &mut v);
        assert(v@ =~= exprs_in_stmt_all(body@, body@.len() as int));
        if let Some(d) = lookup_delta(&v, fl) {
            st.add_decoder(name.as_str(), d);
        }
    }
}

/// Every statement of a program, those inside functions and classes included.
pub fn all_stmts<'a>(program: &'a Vec<Stmt>) -> (r: Vec<&'a Stmt>)
    ensures
        r@ == stmts_in_all(program@, program@.len() as int),
{
    let mut v: Vec<&Stmt> = Vec::new();
    let mut i: usize = 0;
    assert(v@ =~= stmts_in_all(program@, 0));
    while i < program.len()
        invariant
            i <= program@.len(),
            v@ == stmts_in_all(program@, i as int),
        decreases program@.len() - i,
    {
        each_stmt_deep(&program[i], &mut v);
        i += 1;
    }
    v
}

/// What a program declares.
pub fn collect<F: FloatOps>(program: &Vec<Stmt>, fl: &F) -> (st: Statics)
    requires
        fl.ok(),
    ensures
        st@ == fl.model().declared(program@),
{
    let v = all_stmts(program);
    let mut st = Statics { providers: Vec::new(), decoders: Vec::new(), aliases: Vec::new() };
    let mut i: usize = 0;
    assert(st@ =~= fl.model().noted(v@, 0));
    while i < v.len()
        invariant
            fl.ok(),
            i <= v@.len(),
            st@ == fl.model().noted(v@, i as int),
        decreases v@.len() - i,
    {
        match v[i] {
            Stmt::Vars(d) => note_decls(&mut st, d),
            Stmt::Func(f) => note_func(&mut st, f, fl),
            _ => {},
        }
        i += 1;
    }
    st
}

// ---------------------------------------------------------------------- the rotator

/// `a.push(b.shift())` turns a table to the left, `a.unshift(b.pop())` to the
/// right.
pub open spec fn turn(e: &Expr) -> Option<bool> {
    match e {
        Expr::Call { callee, args, .. } => if args@.len() > 0 && args@[0] is Some {
            match bare(&args@[0]->0) {
                Expr::Call { callee: inner, args: none, .. } => if none@.len() > 0 {
                    None
                } else if called(callee) == Some("push"@) && called(inner) == Some("shift"@) {
                    Some(true)
                } else if called(callee) == Some("unshift"@) && called(inner) == Some("pop"@) {
                    Some(false)
                } else {
                    None
                },
                _ => None,
            }
        } else {
            None
        },
        _ => None,
    }
}

/// The last turn among the first `n` expressions.
pub open spec fn last_turn(v: Seq<&Expr>, n: int) -> Option<bool>
    decreases n,
{
    if n <= 0 || n > v.len() {
        None
    } else {
        match turn(v[n - 1]) {
            Some(b) => Some(b),
            None => last_turn(v, n - 1),
        }
    }
}

/// Some of the expressions calls a lookup function.
pub open spec fn calls_decoder(st: StaticsV, v: Seq<&Expr>) -> bool {
    exists|i: int| 0 <= i < v.len() && decoder_call(st, #[trigger] v[i]) is Some
}

/// The lookup function that an expression calls.
pub open spec fn decoder_call(st: StaticsV, e: &Expr) -> Option<Seq<char>> {
    match e {
        Expr::Call { callee, .. } => match name_of(callee) {
            Some(n) => decoder(st, n),
            None => None,
        },
        _ => None,
    }
}

/// The first declared value among the declarations from place `i` on.
pub open spec fn first_init<'a>(v: Seq<Decl>, i: int) -> Option<&'a Expr>
    decreases v.len() - i,
{
    if i < 0 || i >= v.len() {
        None
    } else {
        match v[i].init {
            Some(x) => Some(&x),
            None => first_init(v, i + 1),
        }
    }
}

/// The checksum that a statement declares: its first value, where the statement
/// calls a lookup function.
pub open spec fn checksum_in<'a>(st: StaticsV, s: &Stmt) -> Option<&'a Expr> {
    match s {
        Stmt::Vars(d) => if calls_decoder(st, exprs_in_stmt(s)) {
            first_init(d@, 0)
        } else {
            None
        },
        _ => None,
    }
}

/// The first checksum among the statements from place `i` on.
pub open spec fn first_checksum<'a>(st: StaticsV, v: Seq<Stmt>, i: int) -> Option<&'a Expr>
    decreases v.len() - i,
{
    if i < 0 || i >= v.len() {
        None
    } else {
        match checksum_in(st, &v[i]) {
            Some(x) => Some(x),
            None => first_checksum(st, v, i + 1),
        }
    }
}

/// The block of the first `try` among the statements from place `i` on.
pub open spec fn first_try(v: Seq<Stmt>, i: int) -> Option<Seq<Stmt>>
    decreases v.len() - i,
{
    if i < 0 || i >= v.len() {
        None
    } else {
        match v[i] {
            Stmt::Try { block, .. } => Some(block@),
            _ => first_try(v, i + 1),
        }
    }
}

/// The block that a loop tries: its body is a `try`, or holds one.
pub open spec fn tried(s: &Stmt) -> Option<Seq<Stmt>> {
    match s {
        Stmt::While { body, .. } => match **body {
            Stmt::Try { block, .. } => Some(block@),
            Stmt::Block(b) => first_try(b@, 0),
            _ => None,
        },
        _ => None,
    }
}

/// The first checksum in a loop's `try`, among the statements from place `i` on.
pub open spec fn loop_checksum<'a>(st: StaticsV, v: Seq<Stmt>, i: int) -> Option<&'a Expr>
    decreases v.len() - i,
{
    if i < 0 || i >= v.len() {
        None
    } else {
        match tried(&v[i]) {
            Some(b) => match first_checksum(st, b, 0) {
                Some(x) => Some(x),
                None => loop_checksum(st, v, i + 1),
            },
            None => loop_checksum(st, v, i + 1),
        }
    }
}

impl FloatsV {
    /// A statement that turns the table: a call of a function literal of two
    /// parameters with a number as the second argument, whose body turns the table
    /// and computes a checksum in a loop. It gives the number, the direction of the
    /// turn and the checksum.
    pub open spec fn rotator<'a>(&self, st: StaticsV, s: &Stmt) -> Option<(u64, bool, &'a Expr)> {
        match s {
            Stmt::Value(e) => match bare(e) {
                Expr::Call { callee, args, .. } => match bare(callee) {
                    Expr::Func(f, _) => if f.params@.len() == 2 && args@.len() >= 2 && args@[1] is Some
                        && f.body is Some {
                        let body = f.body->0@;
                        let exprs = exprs_in_stmt_all(body, body.len() as int);
                        match (
                            self.constant(&args@[1]->0),
                            last_turn(exprs, exprs.len() as int),
                            loop_checksum(st, body, 0),
                        ) {
                            (Some(target), Some(left), Some(x)) => Some((target, left, x)),
                            _ => None,
                        }
                    } else {
                        None
                    },
                    _ => None,
                },
                _ => None,
            },
            _ => None,
        }
    }

    /// The first such statement from place `i` on.
    pub open spec fn first_rotator<'a>(
        &self,
        st: StaticsV,
        v: Seq<&Stmt>,
        i: int,
    ) -> Option<(u64, bool, &'a Expr)>
        decreases v.len() - i,
    {
        if i < 0 || i >= v.len() {
            None
        } else {
            match self.rotator(st, v[i]) {
                Some(r) => Some(r),
                None => self.first_rotator(st, v, i + 1),
            }
        }
    }
}

/// The text `r` is `want`.
fn is_text(r: Option<&str>, want: &str) -> (b: bool)
    ensures
        b == (r matches Some(s) && s@ == want@),
{
    match r {
        Some(s) => str_eq(s, want),
        None => false,
    }
}

fn turn_of(e: &Expr) -> (r: Option<bool>)
    ensures
        r == turn(e),
{
    if let Expr::Call { callee, args, .. } = e {
        if args.len() == 0 {
            return None;
        }
        if let Some(first) = &args[0] {
            if let Expr::Call { callee: inner, args: none, .. } = unwrap_parens(first) {
                if none.len() > 0 {
                    return None;
                }
                let outer = call_name(callee);
                let name = call_name(inner);
                if is_text(outer, "push") && is_text(name, "shift") {
                    return Some(true);
                }
                if is_text(outer, "unshift") && is_text(name, "pop") {
                    return Some(false);
                }
            }
        }
    }
    None
}

fn find_turn(v: &Vec<&Expr>) -> (r: Option<bool>)
    ensures
        r == last_turn(v@, v@.len() as int),
{
    let mut r: Option<bool> = None;
    let mut i: usize = 0;
    while i < v.len()
        invariant
            i <= v@.len(),
            r == last_turn(v@, i as int),
        decreases v@.len() - i,
    {
        if let Some(b) = turn_of(v[i]) {
            r = Some(b);
        }
        i += 1;
    }
    r
}

/// The lookup function that an expression calls.
pub fn called_decoder<'a>(st: &'a Statics, e: &Expr) -> (r: Option<&'a str>)
    ensures
        same_text(r, decoder_call(st@, e)),
{
    match e {
        Expr::Call { callee, .. } => match ident_of(callee) {
            Some(n) => resolve_alias(st, n),
            None => None,
        },
        _ => None,
    }
}

fn has_decoder(st: &Statics, v: &Vec<&Expr>) -> (r: bool)
    ensures
        r == calls_decoder(st@, v@),
{
    let mut i: usize = 0;
    while i < v.len()
        invariant
            i <= v@.len(),
            forall|j: int| 0 <= j < i ==> decoder_call(st@, #[trigger] v@[j]) is None,
        decreases v@.len() - i,
    {
        if called_decoder(st, v[i]).is_some() {
            return true;
        }
        i += 1;
    }
    false
}

fn find_init<'a>(v: &'a Vec<Decl>) -> (r: Option<&'a Expr>)
    ensures
        r == first_init(v@, 0),
{
    let mut i: usize = 0;
    while i < v.len()
        invariant
            i <= v@.len(),
            first_init(v@, 0) == first_init(v@, i as int),
        decreases v@.len() - i,
    {
        if let Some(x) = &v[i].init {
            return Some(x);
        }
        i += 1;
    }
    None
}

fn find_checksum<'a>(st: &Statics, v: &'a Vec<Stmt>) -> (r: Option<&'a Expr>)
    ensures
        r == first_checksum(st@, v@, 0),
{
    let mut i: usize = 0;
    while i < v.len()
        invariant
            i <= v@.len(),
            first_checksum(st@, v@, 0) == first_checksum(st@, v@, i as int),
        decreases v@.len() - i,
    {
        if let Stmt::Vars(d) = &v[i] {
            let mut exprs: Vec<&Expr> = Vec::new();
            stmt_exprs(&v[i], &mut exprs);
            assert(exprs@ =~= exprs_in_stmt(&v@[i as int]));
            if has_decoder(st, &exprs) {
                if let Some(x) = find_init(d) {
                    return Some(x);
                }
            }
        }
        i += 1;
    }
    None
}

fn find_try<'a>(v: &'a Vec<Stmt>) -> (r: Option<&'a Vec<Stmt>>)
    ensures
        match first_try(v@, 0) {
            Some(b) => r matches Some(w) && w@ == b,
            None => r is None,
        },
{
    let mut i: usize = 0;
    while i < v.len()
        invariant
            i <= v@.len(),
            first_try(v@, 0) == first_try(v@, i as int),
        decreases v@.len() - i,
    {
        if let Stmt::Try { block, .. } = &v[i] {
            return Some(block);
        }
        i += 1;
    }
    None
}

fn tried_block<'a>(s: &'a Stmt) -> (r: Option<&'a Vec<Stmt>>)
    ensures
        match tried(s) {
            Some(b) => r matches Some(w) && w@ == b,
            None => r is None,
        },
{
    match s {
        Stmt::While { body, .. } => match &**body {
            Stmt::Try { block, .. } => Some(block),
            Stmt::Block(b) => find_try(b),
            _ => None,
        },
        _ => None,
    }
}

fn find_loop_checksum<'a>(st: &Statics, v: &'a Vec<Stmt>) -> (r: Option<&'a Expr>)
    ensures
        r == loop_checksum(st@, v@, 0),
{
    let mut i: usize = 0;
    while i < v.len()
        invariant
            i <= v@.len(),
            loop_checksum(st@, v@, 0) == loop_checksum(st@, v@, i as int),
        decreases v@.len() - i,
    {
        if let Some(b) = tried_block(&v[i]) {
            if let Some(x) = find_checksum(st, b) {
                return Some(x);
            }
        }
        i += 1;
    }
    None
}

fn rotator_of<'a, F: FloatOps>(st: &Statics, s: &'a Stmt, fl: &F) -> (r: Option<
    (u64, bool, &'a Expr),
>)
    requires
        fl.ok(),
    ensures
        r == fl.model().rotator(st@, s),
{
    if let Stmt::Value(e) = s {
        if let Expr::Call { callee, args, .. } = unwrap_parens(e) {
            if let Expr::Func(f, _) = unwrap_parens(callee) {
                if f.params.len() != 2 || args.len() < 2 {
                    return None;
                }
                if let (Some(arg), Some(body)) = (&args[1], &f.body) {
                    let target: u64 = match num_lit(arg, fl) {
                        Some(n) => n,
                        None => return None,
                    };
                    let mut exprs: Vec<&Expr> = Vec::new();
                    stmt_exprs_all(body, &mut exprs);
                    assert(exprs@ =~= exprs_in_stmt_all(body@, body@.len() as int));
                    let left: bool = match find_turn(&exprs) {
                        Some(b) => b,
                        None => return None,
                    };
                    return match find_loop_checksum(st, body) {
                        Some(x) => Some((target, left, x)),
                        None => None,
                    };
                }
            }
        }
    }
    None
}

/// The routine that turns the table: the number its checksum has to reach, the
/// direction of the turn, and the checksum.
pub fn find_rotator<'a, F: FloatOps>(program: &'a Vec<Stmt>, st: &Statics, fl: &F) -> (r: Option<
    (u64, bool, &'a Expr),
>)
    requires
        fl.ok(),
    ensures
        r == fl.model().first_rotator(
            st@,
            stmts_in_all(program@, program@.len() as int),
            0,
        ),
{
    let v = all_stmts(program);
    let mut i: usize = 0;
    while i < v.len()
        invariant
            fl.ok(),
            i <= v@.len(),
            fl.model().first_rotator(st@, v@, 0) == fl.model().first_rotator(st@, v@, i as int),
            v@ == stmts_in_all(program@, program@.len() as int),
        decreases v@.len() - i,
    {
        if let Some(x) = rotator_of(st, v[i], fl) {
            return Some(x);
        }
        i += 1;
    }
    None
}

// ------------------------------------------------------------------- the main body

/// The body of the function literal that a statement calls; `Some(None)` where
/// that function has no statements.
pub open spec fn called_body(s: &Stmt) -> Option<Option<Seq<Stmt>>> {
    match s {
        Stmt::Value(e) => match bare(e) {
            Expr::Call { callee, .. } => match bare(callee) {
                Expr::Func(f, _) => Some(
                    match f.body {
                        Some(b) => Some(b@),
                        None => None,
                    },
                ),
                Expr::Arrow { body, .. } => Some(
                    match body {
                        ArrowBody::Block(b) => Some(b@),
                        ArrowBody::Value(_) => None,
                    },
                ),
                _ => None,
            },
            _ => None,
        },
        _ => None,
    }
}

/// The statements that a program runs: the body of the first function literal
/// that a statement from place `i` on calls, otherwise the program.
pub open spec fn main_body(v: Seq<Stmt>, i: int) -> Seq<Stmt>
    decreases v.len() - i,
{
    if i < 0 || i >= v.len() {
        v
    } else {
        match called_body(&v[i]) {
            Some(b) => match b {
                Some(b) => b,
                None => seq![],
            },
            None => main_body(v, i + 1),
        }
    }
}

fn body_called<'a>(s: &'a Stmt) -> (r: Option<Option<&'a Vec<Stmt>>>)
    ensures
        match called_body(s) {
            Some(b) => r matches Some(w) && match b {
                Some(b) => w matches Some(x) && x@ == b,
                None => w is None,
            },
            None => r is None,
        },
{
    if let Stmt::Value(e) = s {
        if let Expr::Call { callee, .. } = unwrap_parens(e) {
            return match unwrap_parens(callee) {
                Expr::Func(f, _) => match &f.body {
                    Some(b) => Some(Some(b)),
                    None => Some(None),
                },
                Expr::Arrow { body, .. } => match body {
                    ArrowBody::Block(b) => Some(Some(b)),
                    ArrowBody::Value(_) => Some(None),
                },
                _ => None,
            };
        }
    }
    None
}

/// The statements that a program runs; `None` where there are none.
pub fn top_body<'a>(program: &'a Vec<Stmt>) -> (r: Option<&'a Vec<Stmt>>)
    ensures
        match r {
            Some(b) => b@ == main_body(program@, 0),
            None => main_body(program@, 0) == Seq::<Stmt>::empty(),
        },
{
    let mut i: usize = 0;
    while i < program.len()
        invariant
            i <= program@.len(),
            main_body(program@, 0) == main_body(program@, i as int),
        decreases program@.len() - i,
    {
        if let Some(b) = body_called(&program[i]) {
            return b;
        }
        i += 1;
    }
    Some(program)
}

} // verus!
