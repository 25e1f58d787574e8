//! The whole way of a challenge: from its source to the model from which a token
//! is made.
use vstd::prelude::*;

use crate::floats::{ArithOp, FloatOps, FloatsV};
use crate::jsnum::{absolute, equal, finite, int64_of, is_finite, js_parse_int, less, magnitude, num_eq, num_lt, to_i64, NAN};
use crate::pipeline::checks::{pair_texts, CtxV};
use crate::pipeline::mba::{is_tree, names_of, node_views, simplified, simplifies, simplify, Math, Report, SimplifyOut};
use crate::pipeline::ops::{height, Op, Program};
use crate::pipeline::parse::{parse, parsed};
use crate::pipeline::probes::{extract_probes, find_xor_key, first_key, probe_views, Probe, ProbeV};
use crate::pipeline::propagate::{Deob, Scopes, World};
use crate::pipeline::roles::{lemma_translation_compiles, untranslated, TransV, Translated, Translator, ROOM};
use crate::pipeline::statics::{
    called_decoder, collect, decoder_call, entry, find_rotator, main_body, place, top_body, Statics, StaticsV,
};
use crate::pipeline::sx::{copy_texts, field_models, harvest, models, nodes, nodes_of, seen, texts, Sx, SxV};
use crate::pipeline::syntax::{Expr, Stmt};
use crate::pipeline::table::{ahead, back, mod_i64, sub64, wrap64};
use crate::pipeline::walk::stmts_in_all;
use crate::text::{dec_usize, decimal, join2, join3, own, str_eq};

verus! {

/// Why a challenge cannot be modelled.
pub enum FlowErr {
    /// The source is no script.
    Parse(String),
    /// There is no string table.
    NoStrings,
    /// There is no lookup function.
    NoDecoder(String),
    /// Nothing turns the table.
    NoRotator(String),
    /// No turn of the table makes the checksum right.
    Rotation(String),
    /// The payload lacks something.
    Payload(String),
    /// The script does something that is not modelled.
    Read(String),
}

/// A [`FlowErr`] as a mathematical value.
pub enum FlowErrV {
    Parse(Seq<char>),
    NoStrings,
    NoDecoder(Seq<char>),
    NoRotator(Seq<char>),
    Rotation(Seq<char>),
    Payload(Seq<char>),
    Read(Seq<char>),
}

impl View for FlowErr {
    type V = FlowErrV;

    open spec fn view(&self) -> FlowErrV {
        match self {
            FlowErr::Parse(s) => FlowErrV::Parse(s@),
            FlowErr::NoStrings => FlowErrV::NoStrings,
            FlowErr::NoDecoder(s) => FlowErrV::NoDecoder(s@),
            FlowErr::NoRotator(s) => FlowErrV::NoRotator(s@),
            FlowErr::Rotation(s) => FlowErrV::Rotation(s@),
            FlowErr::Payload(s) => FlowErrV::Payload(s@),
            FlowErr::Read(s) => FlowErrV::Read(s@),
        }
    }
}

impl FlowErrV {
    /// The error in words.
    pub open spec fn words(self) -> Seq<char> {
        match self {
            FlowErrV::Parse(s) => "не JS (oxc): "@ + s,
            FlowErrV::NoStrings => "массив строк не найден"@,
            FlowErrV::NoDecoder(s) => "декодер не найден: "@ + s,
            FlowErrV::NoRotator(s) => "ротатор не найден: "@ + s,
            FlowErrV::Rotation(s) => "ротация: "@ + s,
            FlowErrV::Payload(s) => "payload: "@ + s,
            FlowErrV::Read(s) => "вне модели: "@ + s,
        }
    }
}

impl FlowErr {
    /// The error in words.
    pub fn text(&self) -> (s: String)
        ensures
            s@ == self@.words(),
    {
        match self {
            FlowErr::Parse(s) => join2("не JS (oxc): ", s.as_str()),
            FlowErr::NoStrings => own("массив строк не найден"),
            FlowErr::NoDecoder(s) => join2("декодер не найден: ", s.as_str()),
            FlowErr::NoRotator(s) => join2("ротатор не найден: ", s.as_str()),
            FlowErr::Rotation(s) => join2("ротация: ", s.as_str()),
            FlowErr::Payload(s) => join2("payload: ", s.as_str()),
            FlowErr::Read(s) => join2("вне модели: ", s.as_str()),
        }
    }
}

// ---------------------------------------------------------------------- preparation

/// The expressions of a checksum, the whole first.
pub open spec fn sum_exprs<'a>(e: &'a Expr) -> Seq<&'a Expr>
    decreases e, 0int,
{
    seq![e] + match e {
        Expr::Binary { l, r, .. } | Expr::Logical { l, r, .. } => sum_exprs(l) + sum_exprs(r),
        Expr::Unary { arg, .. } => sum_exprs(arg),
        Expr::Paren(p) => sum_exprs(p),
        Expr::Sequence(v, _) => sum_exprs_all(v@, v@.len() as int),
        Expr::Call { callee, args, .. } => sum_exprs(callee) + sum_exprs_args(
            args@,
            args@.len() as int,
        ),
        Expr::Member { obj, .. } => sum_exprs(obj),
        Expr::Index { obj, idx, .. } => sum_exprs(obj) + sum_exprs(idx),
        _ => seq![],
    }
}

/// The expressions of the first `n` parts of a sequence.
pub open spec fn sum_exprs_all<'a>(v: Seq<Expr>, n: int) -> Seq<&'a Expr>
    decreases v, n,
{
    if n <= 0 || n > v.len() { seq![] } else { sum_exprs_all(v, n - 1) + sum_exprs(&v[n - 1]) }
}

/// The expressions of the first `n` arguments.
pub open spec fn sum_exprs_args<'a>(v: Seq<Option<Expr>>, n: int) -> Seq<&'a Expr>
    decreases v, n,
{
    if n <= 0 || n > v.len() {
        seq![]
    } else {
        sum_exprs_args(v, n - 1) + match v[n - 1] {
            Some(x) => sum_exprs(&x),
            None => seq![],
        }
    }
}

fn checksum_expr_walk<'a>(e: &'a Expr, out: &mut Vec<&'a Expr>)
    ensures
        final(out)@ == old(out)@ + sum_exprs(e),
    decreases e, 0int,
{
    let ghost start = out@;
    out.push(e);
    match e {
        Expr::Binary { l, r, .. } | Expr::Logical { l, r, .. } => {
            checksum_expr_walk(l, out);
            checksum_expr_walk(r, out);
        },
        Expr::Unary { arg, .. } | Expr::Paren(arg) | Expr::Member { obj: arg, .. } => {
            checksum_expr_walk(arg, out)
        },
        Expr::Sequence(v, _) => walk_list(v, out),
        Expr::Call { callee, args, .. } => {
            checksum_expr_walk(callee, out);
            walk_args(args, out);
        },
        Expr::Index { obj, idx, .. } => {
            checksum_expr_walk(obj, out);
            checksum_expr_walk(idx, out);
        },
        _ => {},
    }
    assert(out@ =~= start + sum_exprs(e));
}

fn walk_list<'a>(v: &'a Vec<Expr>, out: &mut Vec<&'a Expr>)
    ensures
        final(out)@ == old(out)@ + sum_exprs_all(v@, v@.len() as int),
    decreases v, 0int,
{
    let ghost start = out@;
    let mut i: usize = 0;
    assert(out@ =~= start + sum_exprs_all(v@, 0));
    while i < v.len()
        invariant
            i <= v@.len(),
            out@ == start + sum_exprs_all(v@, i as int),
        decreases v@.len() - i,
    {
        checksum_expr_walk(&v[i], out);
        i += 1;
        assert(out@ =~= start + sum_exprs_all(v@, i as int));
    }
}

fn walk_args<'a>(v: &'a Vec<Option<Expr>>, out: &mut Vec<&'a Expr>)
    ensures
        final(out)@ == old(out)@ + sum_exprs_args(v@, v@.len() as int),
    decreases v, 0int,
{
    let ghost start = out@;
    let mut i: usize = 0;
    assert(out@ =~= start + sum_exprs_args(v@, 0));
    while i < v.len()
        invariant
            i <= v@.len(),
            out@ == start + sum_exprs_args(v@, i as int),
        decreases v@.len() - i,
    {
        if let Some(x) = &v[i] {
            assert(decreases_to!(v => v@[i as int]->0));
            checksum_expr_walk(x, out);
        }
        i += 1;
        assert(out@ =~= start + sum_exprs_args(v@, i as int));
    }
}

/// The first lookup function that is called among the expressions from place `i`
/// on.
pub open spec fn first_called(st: StaticsV, v: Seq<&Expr>, i: int) -> Option<Seq<char>>
    decreases v.len() - i,
{
    if i < 0 || i >= v.len() {
        None
    } else {
        match decoder_call(st, v[i]) {
            Some(d) => Some(d),
            None => first_called(st, v, i + 1),
        }
    }
}

/// The lookup function of a checksum: the first one it calls, or else the first
/// one that is declared.
pub open spec fn used_decoder(st: StaticsV, e: &Expr) -> Seq<char> {
    match first_called(st, sum_exprs(e), 0) {
        Some(d) => d,
        None => st.decoders[0].0,
    }
}

/// The longest of the first `n` string tables; of equally long ones the last.
pub open spec fn longest(v: Seq<(Seq<char>, Seq<Seq<char>>)>, n: int) -> Option<Seq<Seq<char>>>
    decreases n,
{
    if n <= 0 || n > v.len() {
        None
    } else {
        match longest(v, n - 1) {
            Some(b) => if v[n - 1].1.len() >= b.len() { Some(v[n - 1].1) } else { Some(b) },
            None => Some(v[n - 1].1),
        }
    }
}

/// What is known of a challenge before its checksum is simplified.
pub struct PreparedV {
    pub program: Seq<Stmt>,
    pub st: StaticsV,
    pub target: u64,
    pub left: bool,
    pub delta: u64,
    pub orig: Seq<Seq<char>>,
    pub t: TransV,
}

impl FloatsV {
    /// What is known of a challenge before its checksum is simplified, or why it
    /// goes no further.
    pub open spec fn prepared(&self, program: Seq<Stmt>) -> Result<PreparedV, FlowErrV> {
        let st = self.declared(program);
        if st.providers.len() == 0 {
            Err(FlowErrV::NoStrings)
        } else if st.decoders.len() == 0 {
            Err(FlowErrV::NoDecoder("нет функции с самотрансформацией индекса"@))
        } else {
            match self.first_rotator(st, stmts_in_all(program, program.len() as int), 0) {
                None => Err(
                    FlowErrV::NoRotator(
                        "нет IIFE (fn(arr,target)) с push/shift и checksum-вызовом декодера"@,
                    ),
                ),
                Some((target, left, sum)) => match entry(st.decoders, used_decoder(st, sum)) {
                    None => Err(FlowErrV::NoDecoder(used_decoder(st, sum))),
                    Some(delta) => match self.translated(st, sum, untranslated()) {
                        (t, Ok(_)) => Ok(
                            PreparedV {
                                program,
                                st,
                                target,
                                left,
                                delta,
                                orig: longest(st.providers, st.providers.len() as int)->0,
                                t,
                            },
                        ),
                        (t, Err(m)) => Err(
                            FlowErrV::Read("перевод checksum: "@ + ("перевод checksum: "@ + m)),
                        ),
                    },
                },
            }
        }
    }

    /// As `prepared`, from the source.
    pub open spec fn prepared_source(&self, src: Seq<char>) -> Result<PreparedV, FlowErrV> {
        match parsed(src, ROOM) {
            Ok(program) => self.prepared(program),
            Err(m) => Err(FlowErrV::Parse(m)),
        }
    }
}

/// A challenge that is ready for its checksum to be simplified.
pub struct Prepared {
    pub program: Vec<Stmt>,
    pub st: Statics,
    pub target: u64,
    pub left: bool,
    pub delta: u64,
    pub orig: Vec<String>,
    pub t: Translated,
}

/// The translation of a checksum as a mathematical value.
pub open spec fn trans_view(t: Translated) -> TransV {
    TransV {
        ops: t.program.ops@,
        names: Seq::new(t.var_pairs@.len(), |i: int| t.var_pairs@[i].0@),
        args: t.var_args@,
        nodes: node_views(t.nodes@),
    }
}

impl View for Prepared {
    type V = PreparedV;

    open spec fn view(&self) -> PreparedV {
        PreparedV {
            program: self.program@,
            st: self.st@,
            target: self.target,
            left: self.left,
            delta: self.delta,
            orig: texts(self.orig@),
            t: trans_view(self.t),
        }
    }
}

/// The table is not empty, the program of the checksum can run, and every name has
/// its index.
pub open spec fn ready(p: Prepared) -> bool {
    &&& p.orig@.len() > 0
    &&& height(p.t.program.ops@) is Some
    &&& is_tree(node_views(p.t.nodes@))
    &&& p.t.var_pairs@.len() == p.t.var_args@.len()
    &&& p.t.program.n_vars == p.t.var_pairs@.len()
    &&& forall|i: int|
        0 <= i < p.t.var_pairs@.len() ==> (#[trigger] p.t.var_pairs@[i]).1 == p.t.var_args@[i]
}

/// `r` is what `w` says.
pub open spec fn same_prepared(r: Result<Prepared, FlowErr>, w: Result<PreparedV, FlowErrV>) -> bool {
    match w {
        Ok(p) => r matches Ok(q) && q@ == p && ready(q),
        Err(e) => r matches Err(x) && x@ == e,
    }
}

fn find_called<'a>(st: &'a Statics, v: &Vec<&Expr>) -> (r: Option<&'a str>)
    ensures
        match first_called(st@, v@, 0) {
            Some(d) => r matches Some(s) && s@ == d,
            None => r is None,
        },
{
    let mut i: usize = 0;
    while i < v.len()
        invariant
            i <= v@.len(),
            first_called(st@, v@, 0) == first_called(st@, v@, i as int),
        decreases v@.len() - i,
    {
        if let Some(d) = called_decoder(st, v[i]) {
            return Some(d);
        }
        i += 1;
    }
    None
}

fn longest_table(st: &Statics) -> (r: Vec<String>)
    requires
        st.providers@.len() > 0,
    ensures
        Some(texts(r@)) == longest(st@.providers, st@.providers.len() as int),
{
    let ghost v = st@.providers;
    let mut best: usize = 0;
    let mut i: usize = 1;
    assert(longest(v, 0) is None);
    assert(longest(v, 1) == Some(v[0].1));
    while i < st.providers.len()
        invariant
            1 <= i <= st.providers@.len(),
            best < i,
            v == st@.providers,
            longest(v, i as int) == Some(v[best as int].1),
        decreases st.providers@.len() - i,
    {
        assert(v[i as int].1.len() == st.providers@[i as int].1@.len());
        assert(v[best as int].1.len() == st.providers@[best as int].1@.len());
        if st.providers[i].1.len() >= st.providers[best].1.len() {
            best = i;
        }
        i += 1;
    }
    copy_texts(&st.providers[best].1)
}

/// Every table has twenty strings at least.
pub proof fn lemma_tables(fl: FloatsV, program: Seq<Stmt>)
    ensures
        forall|i: int|
            0 <= i < fl.declared(program).providers.len() ==> (
            #[trigger] fl.declared(program).providers[i]).1.len() >= 20,
{
    let v = stmts_in_all(program, program.len() as int);
    lemma_noted_tables(fl, v, v.len() as int);
}

spec fn tables_long(st: StaticsV) -> bool {
    forall|i: int| 0 <= i < st.providers.len() ==> (#[trigger] st.providers[i]).1.len() >= 20
}

proof fn lemma_noted_tables(fl: FloatsV, v: Seq<&Stmt>, n: int)
    requires
        n <= v.len(),
    ensures
        tables_long(fl.noted(v, n)),
    decreases n,
{
    if n > 0 {
        lemma_noted_tables(fl, v, n - 1);
        let st = fl.noted(v, n - 1);
        match v[n - 1] {
            Stmt::Vars(d) => lemma_decl_tables(st, d@, d@.len() as int),
            Stmt::Func(f) => {
                if let (Some(name), Some(body)) = (f.name, f.body) {
                    lemma_body_tables(st, name@, body@, body@.len() as int);
                }
            },
            _ => {},
        }
    }
}

proof fn lemma_decl_tables(st: StaticsV, v: Seq<crate::pipeline::syntax::Decl>, n: int)
    requires
        tables_long(st),
        n <= v.len(),
    ensures
        tables_long(crate::pipeline::statics::noted_decls(st, v, n)),
    decreases n,
{
    if n > 0 {
        lemma_decl_tables(st, v, n - 1);
    }
}

proof fn lemma_inner_tables(st: StaticsV, f: Seq<char>, v: Seq<crate::pipeline::syntax::Decl>, n: int)
    requires
        tables_long(st),
        n <= v.len(),
    ensures
        tables_long(crate::pipeline::statics::noted_inner(st, f, v, n)),
    decreases n,
{
    if n > 0 {
        lemma_inner_tables(st, f, v, n - 1);
    }
}

proof fn lemma_body_tables(st: StaticsV, f: Seq<char>, v: Seq<Stmt>, n: int)
    requires
        tables_long(st),
        n <= v.len(),
    ensures
        tables_long(crate::pipeline::statics::noted_body(st, f, v, n)),
    decreases n,
{
    if n > 0 {
        lemma_body_tables(st, f, v, n - 1);
        let before = crate::pipeline::statics::noted_body(st, f, v, n - 1);
        if let Stmt::Vars(d) = v[n - 1] {
            lemma_inner_tables(before, f, d@, d@.len() as int);
        }
    }
}

proof fn lemma_longest(v: Seq<(Seq<char>, Seq<Seq<char>>)>, n: int)
    requires
        0 < n <= v.len(),
        forall|i: int| 0 <= i < v.len() ==> (#[trigger] v[i]).1.len() >= 20,
    ensures
        longest(v, n) is Some,
        longest(v, n)->0.len() >= 20,
    decreases n,
{
    if n > 1 {
        lemma_longest(v, n - 1);
    } else {
        assert(longest(v, 0) is None);
    }
}

/// Prepares a parsed challenge.
pub fn prepare<F: FloatOps>(program: Vec<Stmt>, fl: &F) -> (r: Result<Prepared, FlowErr>)
    requires
        fl.ok(),
    ensures
        same_prepared(r, fl.model().prepared(program@)),
{
    let st = collect(&program, fl);
    if st.providers.len() == 0 {
        return Err(FlowErr::NoStrings);
    }
    if st.decoders.len() == 0 {
        return Err(FlowErr::NoDecoder(own("нет функции с самотрансформацией индекса")));
    }
    let (target, left, sum) = match find_rotator(&program, &st, fl) {
        Some(x) => x,
        None => {
            return Err(
                FlowErr::NoRotator(
                    own("нет IIFE (fn(arr,target)) с push/shift и checksum-вызовом декодера"),
                ),
            );
        },
    };
    let mut exprs: Vec<&Expr> = Vec::new();
    checksum_expr_walk(sum, &mut exprs);
    assert(exprs@ =~= sum_exprs(sum));
    let name: &str = match find_called(&st, &exprs) {
        Some(d) => d,
        None => st.decoders[0].0.as_str(),
    };
    assert(name@ == used_decoder(st@, sum));
    let delta: u64 = match st.delta_of(name) {
        Some(d) => d,
        None => return Err(FlowErr::NoDecoder(own(name))),
    };
    let mut tr = Translator::new(&st);
    let moved = tr.expr(sum, fl);
    if let Err(m) = moved {
        return Err(FlowErr::Read(join2("перевод checksum: ", m.text().as_str())));
    }
    proof {
        lemma_translation_compiles(fl.model(), st@, sum);
        lemma_tables(fl.model(), program@);
        lemma_longest(st@.providers, st@.providers.len() as int);
    }
    let t = tr.finish();
    let orig = longest_table(&st);
    let p = Prepared { program, st, target, left, delta, orig, t };
    proof {
        assert(texts(orig@).len() == orig@.len());
        assert(p@.t.names =~= fl.model().translated(st@, sum, untranslated()).0.names);
    }
    Ok(p)
}

// ------------------------------------------------------------------------- rotation

impl PreparedV {
    /// The place in the table that the index `arg` looks up after `k` turns.
    pub open spec fn turned(&self, arg: u64, k: int) -> int {
        let i = wrap64(int64_of(arg) - int64_of(self.delta)) as int;
        (wrap64(if self.left { i + k } else { i - k }) as int) % (self.orig.len() as int)
    }

    /// The table after `k` turns.
    pub open spec fn rotated(&self, k: int) -> Seq<Seq<char>> {
        let n = self.orig.len() as int;
        let start = if self.left { k % n } else { (n - k % n) % n };
        Seq::new(self.orig.len(), |i: int| self.orig[(start + i) % n])
    }
}

impl FloatsV {
    /// The numbers that the checksum is computed from after `k` turns: at least one.
    pub open spec fn inputs(&self, p: PreparedV, k: int) -> Seq<u64> {
        let n = p.t.args.len();
        Seq::new(
            if n > 0 { n } else { 1 },
            |i: int|
                if i < n {
                    self.parse_int_of(p.orig[p.turned(p.t.args[i], k)], 0)
                } else {
                    0
                },
        )
    }

    /// Of the first `n` values the one nearest to the target, with its distance;
    /// infinite distances do not count.
    pub open spec fn nearest(&self, target: u64, vals: Seq<u64>, n: int) -> Option<(int, u64)>
        decreases n,
    {
        if n <= 0 || n > vals.len() {
            None
        } else {
            let b = self.nearest(target, vals, n - 1);
            let d = magnitude((self.op)(ArithOp::Sub, vals[n - 1], target));
            if is_finite(d) && (b is None || num_lt(d, (b->0).1)) { Some((n - 1, d)) } else { b }
        }
    }

    /// What is said of a search that has found nothing.
    pub open spec fn missed(&self, target: u64, vals: Seq<u64>) -> Seq<char> {
        let b = self.nearest(target, vals, vals.len() as int);
        "цель "@ + (self.shown)(target) + ", лучший k="@ + (match b {
            Some((k, d)) => "Some("@ + decimal(k as nat) + ")"@,
            None => "None"@,
        }) + " |Δ|="@ + (self.shown)(
            match b {
                Some((k, d)) => d,
                None => NAN,
            },
        )
    }
}

/// The first of the values that equals the target stands at `k`.
pub open spec fn hit_at(vals: Seq<u64>, target: u64, k: int) -> bool {
    &&& 0 <= k < vals.len()
    &&& num_eq(vals[k], target)
    &&& forall|j: int| 0 <= j < k ==> !num_eq(#[trigger] vals[j], target)
}

/// Native code for a program: it takes every input, and may have no answer.
pub open spec fn is_native<N: Fn(u64, &Program, &Vec<u64>) -> Option<u64>>(f: N) -> bool {
    forall|h: u64, p: &Program, v: &Vec<u64>| #[trigger] call_requires(f, (h, p, v))
}

/// The native code may answer `x` to the numbers `v`.
pub open spec fn native_gives<N: Fn(u64, &Program, &Vec<u64>) -> Option<u64>>(
    f: N,
    h: u64,
    p: &Program,
    v: Seq<u64>,
    x: u64,
) -> bool {
    exists|b: &Vec<u64>| b@ == v && #[trigger] call_ensures(f, (h, p, b), Some(x))
}

impl FloatsV {
    /// The values of the checksum after no turn, one turn and so on: each is what
    /// the program computes, or what the native code answers, provided that the
    /// native code gave the same first value as the program.
    pub open spec fn values<N: Fn(u64, &Program, &Vec<u64>) -> Option<u64>>(
        &self,
        p: PreparedV,
        simp: SimplifyOut,
        f: N,
        vals: Seq<u64>,
    ) -> bool {
        forall|k: int|
            0 <= k < vals.len() ==> {
                ||| #[trigger] vals[k] == self.outcome(simp.program.ops@, self.inputs(p, k))
                ||| k > 0 && native_gives(
                    f,
                    simp.report.full_hash,
                    &simp.program,
                    self.inputs(p, 0),
                    vals[0],
                ) && native_gives(
                    f,
                    simp.report.full_hash,
                    &simp.program,
                    self.inputs(p, k),
                    vals[k],
                )
            }
    }

    /// The outcome of a search over all turns, given the values it has seen.
    pub open spec fn searched(
        &self,
        p: PreparedV,
        vals: Seq<u64>,
        r: Result<usize, FlowErr>,
    ) -> bool {
        match r {
            Ok(k) => vals.len() == k + 1 && k < p.orig.len() && hit_at(vals, p.target, k as int),
            Err(e) => {
                &&& vals.len() == p.orig.len()
                &&& forall|j: int| 0 <= j < vals.len() ==> !num_eq(#[trigger] vals[j], p.target)
                &&& e@ == FlowErrV::Rotation(self.missed(p.target, vals))
            },
        }
    }
}

fn parse_table<F: FloatOps>(v: &Vec<String>, fl: &F) -> (r: Vec<u64>)
    requires
        fl.ok(),
    ensures
        r@.len() == v@.len(),
        forall|i: int| 0 <= i < v@.len() ==> #[trigger] r@[i] == fl.model().parse_int_of(v@[i]@, 0),
{
    let mut r: Vec<u64> = Vec::new();
    let mut i: usize = 0;
    while i < v.len()
        invariant
            fl.ok(),
            i <= v@.len(),
            r@.len() == i,
            forall|j: int|
                0 <= j < i ==> #[trigger] r@[j] == fl.model().parse_int_of(v@[j]@, 0),
        decreases v@.len() - i,
    {
        r.push(js_parse_int(v[i].as_str(), fl));
        i += 1;
    }
    r
}

fn input_row<F: FloatOps>(p: &Prepared, table: &Vec<u64>, k: usize, fl: &F) -> (r: Vec<u64>)
    requires
        fl.ok(),
        ready(*p),
        table@.len() == p.orig@.len(),
        forall|i: int|
            0 <= i < table@.len() ==> #[trigger] table@[i] == fl.model().parse_int_of(
                p.orig@[i]@,
                0,
            ),
    ensures
        r@ == fl.model().inputs(p@, k as int),
{
    let ghost want = fl.model().inputs(p@, k as int);
    let n: usize = p.orig.len();
    assert(p@.orig.len() == n);
    let mut r: Vec<u64> = Vec::new();
    let mut i: usize = 0;
    while i < p.t.var_args.len()
        invariant
            fl.ok(),
            ready(*p),
            n == p.orig@.len(),
            p@.orig.len() == n,
            table@.len() == n,
            forall|j: int|
                0 <= j < table@.len() ==> #[trigger] table@[j] == fl.model().parse_int_of(
                    p.orig@[j]@,
                    0,
                ),
            want == fl.model().inputs(p@, k as int),
            i <= p.t.var_args@.len(),
            r@.len() == i,
            forall|j: int| 0 <= j < i ==> #[trigger] r@[j] == want[j],
        decreases p.t.var_args@.len() - i,
    {
        let a: u64 = p.t.var_args[i];
        let from: i64 = sub64(to_i64(a), to_i64(p.delta));
        let at: usize = mod_i64(if p.left { ahead(from, k) } else { back(from, k) }, n);
        assert(at == p@.turned(a, k as int));
        assert(p@.orig[at as int] == p.orig@[at as int]@);
        r.push(table[at]);
        i += 1;
    }
    if i == 0 {
        r.push(0);
    }
    assert(r@ =~= want);
    r
}

fn missed_text<F: FloatOps>(target: u64, best: Option<(usize, u64)>, fl: &F) -> (s: String)
    requires
        fl.ok(),
    ensures
        s@ == "цель "@ + (fl.model().shown)(target) + ", лучший k="@ + (match best {
            Some((k, d)) => "Some("@ + decimal(k as nat) + ")"@,
            None => "None"@,
        }) + " |Δ|="@ + (fl.model().shown)(
            match best {
                Some((k, d)) => d,
                None => NAN,
            },
        ),
{
    let mut s = own("цель ");
    s.push_str(fl.write(target).as_str());
    s.push_str(", лучший k=");
    let (place, d) = match best {
        Some((k, d)) => (join3("Some(", dec_usize(k).as_str(), ")"), d),
        None => (own("None"), NAN),
    };
    s.push_str(place.as_str());
    s.push_str(" |Δ|=");
    s.push_str(fl.write(d).as_str());
    s
}

/// Turns the table until the simplified checksum reaches its target. Native code
/// takes over after the first turn, if it has given the same value there.
fn find_turns<F: FloatOps, N: Fn(u64, &Program, &Vec<u64>) -> Option<u64>>(
    p: &Prepared,
    simp: &SimplifyOut,
    fl: &F,
    native: &N,
) -> (r: Result<usize, FlowErr>)
    requires
        fl.ok(),
        ready(*p),
        is_native(*native),
        height(simp.program.ops@) is Some,
    ensures
        exists|vals: Seq<u64>| #[trigger]
            fl.model().values(p@, *simp, *native, vals) && fl.model().searched(p@, vals, r),
{
    let ghost m = fl.model();
    let n: usize = p.orig.len();
    assert(p@.orig.len() == n);
    let table = parse_table(&p.orig, fl);
    let hash: u64 = simp.report.full_hash;
    let ghost mut vals: Seq<u64> = seq![];
    let mut best: Option<(usize, u64)> = None;
    let mut agreed: Option<bool> = None;
    let mut k: usize = 0;
    while k < n
        invariant
            fl.ok(),
            ready(*p),
            is_native(*native),
            height(simp.program.ops@) is Some,
            m == fl.model(),
            n == p.orig@.len(),
            p@.orig.len() == n,
            hash == simp.report.full_hash,
            table@.len() == n,
            forall|j: int|
                0 <= j < table@.len() ==> #[trigger] table@[j] == m.parse_int_of(p.orig@[j]@, 0),
            k <= n,
            vals.len() == k,
            m.values(p@, *simp, *native, vals),
            forall|j: int| 0 <= j < k ==> !num_eq(#[trigger] vals[j], p.target),
            agreed is None <==> k == 0,
            agreed == Some(true) ==> k > 0 && native_gives(
                *native,
                hash,
                &simp.program,
                m.inputs(p@, 0),
                vals[0],
            ),
            match best {
                Some((b, d)) => m.nearest(p.target, vals, k as int) == Some((b as int, d)),
                None => m.nearest(p.target, vals, k as int) is None,
            },
        decreases n - k,
    {
        let row = input_row(p, &table, k, fl);
        let ghost was = vals;
        proof {
            m.lemma_supplied(simp.program.ops@, row@);
        }
        let v: u64 = match agreed {
            None => {
                let iv: u64 = simp.program.eval(row.as_slice(), fl);
                match native(hash, &simp.program, &row) {
                    Some(x) => {
                        agreed = Some(x == iv);
                        assert(x == iv ==> native_gives(
                            *native,
                            hash,
                            &simp.program,
                            m.inputs(p@, 0),
                            iv,
                        ));
                    },
                    None => {
                        agreed = Some(false);
                    },
                }
                iv
            },
            Some(true) => match native(hash, &simp.program, &row) {
                Some(x) => {
                    assert(native_gives(*native, hash, &simp.program, m.inputs(p@, k as int), x));
                    x
                },
                None => simp.program.eval(row.as_slice(), fl),
            },
            Some(false) => simp.program.eval(row.as_slice(), fl),
        };
        proof {
            vals = was.push(v);
            assert forall|j: int| 0 <= j < k implies #[trigger] vals[j] == was[j] by {}
            assert(m.values(p@, *simp, *native, vals));
            m.lemma_nearest_prefix(p.target, was, vals, k as int);
        }
        if equal(v, p.target) {
            assert(hit_at(vals, p.target, k as int));
            return Ok(k);
        }
        let d: u64 = absolute(fl.compute(ArithOp::Sub, v, p.target));
        let closer: bool = finite(d) && match best {
            Some((_, b)) => less(d, b),
            None => true,
        };
        if closer {
            best = Some((k, d));
        }
        k += 1;
    }
    let e = FlowErr::Rotation(missed_text(p.target, best, fl));
    assert(m.searched(p@, vals, Err(e)));
    Err(e)
}

impl FloatsV {
    proof fn lemma_nearest_prefix(&self, target: u64, a: Seq<u64>, b: Seq<u64>, n: int)
        requires
            0 <= n <= a.len(),
            n <= b.len(),
            forall|j: int| 0 <= j < n ==> #[trigger] a[j] == b[j],
        ensures
            self.nearest(target, a, n) == self.nearest(target, b, n),
        decreases n,
    {
        if n > 0 {
            self.lemma_nearest_prefix(target, a, b, n - 1);
            assert(a[n - 1] == b[n - 1]);
        }
    }
}

// ---------------------------------------------------------------------- the payload

/// What the folded script says of its payload.
#[verifier::ext_equal]
pub struct Harvest {
    pub hashes: Seq<Seq<char>>,
    pub v: Seq<char>,
    pub challenge_id: Seq<char>,
    pub timestamp: Seq<char>,
    pub key: Option<Seq<char>>,
    pub spec: Seq<(Seq<char>, bool)>,
}

/// The strings among the first `n` items of a list.
pub open spec fn strings_in(v: Seq<SxV>, n: int) -> Seq<Seq<char>>
    decreases n,
{
    if n <= 0 || n > v.len() {
        seq![]
    } else {
        match v[n - 1] {
            SxV::Str(s) => strings_in(v, n - 1).push(s),
            _ => strings_in(v, n - 1),
        }
    }
}

/// Pairs of a name and a boolean: the first `n` items of a list.
pub open spec fn flags(v: Seq<SxV>, n: int) -> Option<Seq<(Seq<char>, bool)>>
    decreases n,
{
    if n <= 0 || n > v.len() {
        Some(seq![])
    } else {
        match flags(v, n - 1) {
            Some(f) => match v[n - 1] {
                SxV::Arr(p) => if p.len() == 2 && p[0] is Str && p[1] is Bool {
                    Some(f.push((p[0]->Str_0, p[1]->Bool_0)))
                } else {
                    None
                },
                _ => None,
            },
            None => None,
        }
    }
}

impl Harvest {
    /// With a property of the meta data; `body` are all nodes of the script.
    pub open spec fn with_meta(self, k: Seq<char>, x: SxV, body: Seq<SxV>) -> Harvest {
        if k == "v"@ {
            match x {
                SxV::Str(s) => Harvest { v: s, ..self },
                _ => self,
            }
        } else if k == "challenge_id"@ {
            match x {
                SxV::Str(s) => Harvest { challenge_id: s, ..self },
                _ => self,
            }
        } else if k == "timestamp"@ {
            match x {
                SxV::Str(s) => Harvest { timestamp: s, ..self },
                _ => self,
            }
        } else if k == "debug"@ && self.key is None {
            Harvest { key: first_key(nodes(x), 0, body), ..self }
        } else {
            self
        }
    }

    /// With the first `n` properties of the meta data.
    pub open spec fn with_metas(self, v: Seq<(Seq<char>, SxV)>, n: int, body: Seq<SxV>) -> Harvest
        decreases n,
    {
        if n <= 0 || n > v.len() {
            self
        } else {
            self.with_metas(v, n - 1, body).with_meta(v[n - 1].0, v[n - 1].1, body)
        }
    }

    /// With a property of a returned object.
    pub open spec fn with_field(self, k: Seq<char>, x: SxV, body: Seq<SxV>) -> Harvest {
        if k == "server_hashes"@ {
            match x {
                SxV::Arr(v) => Harvest {
                    hashes: self.hashes + strings_in(v, v.len() as int),
                    ..self
                },
                _ => self,
            }
        } else if k == "meta"@ {
            match x {
                SxV::Obj(v) => self.with_metas(v, v.len() as int, body),
                _ => self,
            }
        } else {
            self
        }
    }

    /// With the first `n` properties of a returned object.
    pub open spec fn with_fields(self, v: Seq<(Seq<char>, SxV)>, n: int, body: Seq<SxV>) -> Harvest
        decreases n,
    {
        if n <= 0 || n > v.len() {
            self
        } else {
            self.with_fields(v, n - 1, body).with_field(v[n - 1].0, v[n - 1].1, body)
        }
    }

    /// With a node of the script: an object that is returned, or the first list of
    /// two to twelve pairs that a variable holds.
    pub open spec fn with_node(self, x: SxV, body: Seq<SxV>) -> Harvest {
        match x {
            SxV::Ret(Some(o)) => match *o {
                SxV::Obj(v) => self.with_fields(v, v.len() as int, body),
                _ => self,
            },
            SxV::Var { value, .. } => match *value {
                SxV::Arr(v) => if 2 <= v.len() <= 12 && self.spec.len() == 0 && flags(
                    v,
                    v.len() as int,
                ) is Some {
                    Harvest { spec: flags(v, v.len() as int)->0, ..self }
                } else {
                    self
                },
                _ => self,
            },
            _ => self,
        }
    }

    /// With the first `n` nodes of the script.
    pub open spec fn with_nodes(self, n: int, body: Seq<SxV>) -> Harvest
        decreases n,
    {
        if n <= 0 || n > body.len() {
            self
        } else {
            self.with_nodes(n - 1, body).with_node(body[n - 1], body)
        }
    }
}

/// What a folded script says of its payload.
pub open spec fn payload(body: Seq<SxV>) -> Harvest {
    let all = nodes_of(body);
    Harvest {
        hashes: seq![],
        v: seq![],
        challenge_id: seq![],
        timestamp: seq![],
        key: None,
        spec: seq![],
    }.with_nodes(all.len() as int, all)
}

struct Found {
    hashes: Vec<String>,
    v: String,
    challenge_id: String,
    timestamp: String,
    key: Option<String>,
    spec: Vec<(String, bool)>,
}

/// The values of a list of flags.
pub open spec fn flag_views(v: Seq<(String, bool)>) -> Seq<(Seq<char>, bool)> {
    Seq::new(v.len(), |i: int| (v[i].0@, v[i].1))
}

/// The text of a string that may be missing.
pub open spec fn opt_text(s: Option<String>) -> Option<Seq<char>> {
    match s {
        Some(t) => Some(t@),
        None => None,
    }
}

fn read_flags(v: &Vec<Sx>) -> (r: Option<Vec<(String, bool)>>)
    ensures
        match flags(models(v@), models(v@).len() as int) {
            Some(f) => r matches Some(w) && flag_views(w@) == f,
            None => r is None,
        },
{
    let ghost m = models(v@);
    assert(m.len() == v@.len());
    let mut out: Vec<(String, bool)> = Vec::new();
    let mut i: usize = 0;
    assert(flag_views(out@) =~= seq![]);
    while i < v.len()
        invariant
            i <= v@.len(),
            m == models(v@),
            m.len() == v@.len(),
            flags(m, i as int) == Some(flag_views(out@)),
        decreases v@.len() - i,
    {
        let ghost before = flag_views(out@);
        assert(m[i as int] == v@[i as int].model());
        proof {
            if flags(m, i + 1) is None {
                lemma_flags_fail(m, i + 1, m.len() as int);
            }
        }
        let p = match v[i].as_arr() {
            Some(p) => p,
            None => return None,
        };
        if p.len() != 2 {
            return None;
        }
        assert(models(p@)[0] == p@[0].model());
        assert(models(p@)[1] == p@[1].model());
        match (p[0].as_text(), p[1].as_bool()) {
            (Some(s), Some(b)) => {
                out.push((own(s), b));
                assert(flag_views(out@) =~= before.push((s@, b)));
            },
            _ => return None,
        }
        i += 1;
    }
    Some(out)
}

proof fn lemma_flags_fail(v: Seq<SxV>, k: int, n: int)
    requires
        0 <= k <= n <= v.len(),
        flags(v, k) is None,
    ensures
        flags(v, n) is None,
    decreases n,
{
    if k < n {
        lemma_flags_fail(v, k, n - 1);
    }
}

impl Found {
    spec fn at(&self) -> Harvest {
        Harvest {
            hashes: texts(self.hashes@),
            v: self.v@,
            challenge_id: self.challenge_id@,
            timestamp: self.timestamp@,
            key: opt_text(self.key),
            spec: flag_views(self.spec@),
        }
    }

    fn meta(&mut self, k: &str, x: &Sx, body: &Vec<Sx>)
        ensures
            final(self).at() == old(self).at().with_meta(k@, x@, nodes_of(models(body@))),
    {
        if str_eq(k, "v") {
            if let Some(s) = x.as_text() {
                self.v = own(s);
            }
        } else if str_eq(k, "challenge_id") {
            if let Some(s) = x.as_text() {
                self.challenge_id = own(s);
            }
        } else if str_eq(k, "timestamp") {
            if let Some(s) = x.as_text() {
                self.timestamp = own(s);
            }
        } else if str_eq(k, "debug") && self.key.is_none() {
            self.key = find_xor_key(x, body);
        }
    }

    fn metas(&mut self, v: &Vec<(String, Sx)>, body: &Vec<Sx>)
        ensures
            final(self).at() == old(self).at().with_metas(
                field_models(v@),
                v@.len() as int,
                nodes_of(models(body@)),
            ),
    {
        let ghost start = self.at();
        let ghost m = field_models(v@);
        let mut i: usize = 0;
        while i < v.len()
            invariant
                i <= v@.len(),
                m == field_models(v@),
                m.len() == v@.len(),
                self.at() == start.with_metas(m, i as int, nodes_of(models(body@))),
            decreases v@.len() - i,
        {
            assert(m[i as int] == (v@[i as int].0@, v@[i as int].1.model()));
            self.meta(v[i].0.as_str(), &v[i].1, body);
            i += 1;
        }
    }

    fn hashes(&mut self, v: &Vec<Sx>)
        ensures
            final(self).at() == (Harvest {
                hashes: old(self).at().hashes + strings_in(models(v@), v@.len() as int),
                ..old(self).at()
            }),
    {
        let ghost start = self.at();
        let ghost m = models(v@);
        let mut i: usize = 0;
        assert(self.at().hashes =~= start.hashes + strings_in(m, 0));
        while i < v.len()
            invariant
                i <= v@.len(),
                m == models(v@),
                m.len() == v@.len(),
                self.at() == (Harvest {
                    hashes: start.hashes + strings_in(m, i as int),
                    ..start
                }),
            decreases v@.len() - i,
        {
            let ghost before = self.at();
            assert(m[i as int] == v@[i as int].model());
            if let Some(s) = v[i].as_text() {
                self.hashes.push(own(s));
                assert(self.at().hashes =~= before.hashes.push(s@));
                assert(self.at().hashes =~= start.hashes + strings_in(m, i + 1));
            }
            i += 1;
        }
    }

    fn field(&mut self, k: &str, x: &Sx, body: &Vec<Sx>)
        ensures
            final(self).at() == old(self).at().with_field(k@, x@, nodes_of(models(body@))),
    {
        if str_eq(k, "server_hashes") {
            if let Some(v) = x.as_arr() {
                self.hashes(v);
            }
        } else if str_eq(k, "meta") {
            if let Some(v) = x.as_obj() {
                self.metas(v, body);
            }
        }
    }

    fn fields(&mut self, v: &Vec<(String, Sx)>, body: &Vec<Sx>)
        ensures
            final(self).at() == old(self).at().with_fields(
                field_models(v@),
                v@.len() as int,
                nodes_of(models(body@)),
            ),
    {
        let ghost start = self.at();
        let ghost m = field_models(v@);
        let mut i: usize = 0;
        while i < v.len()
            invariant
                i <= v@.len(),
                m == field_models(v@),
                m.len() == v@.len(),
                self.at() == start.with_fields(m, i as int, nodes_of(models(body@))),
            decreases v@.len() - i,
        {
            assert(m[i as int] == (v@[i as int].0@, v@[i as int].1.model()));
            self.field(v[i].0.as_str(), &v[i].1, body);
            i += 1;
        }
    }

    fn node(&mut self, x: &Sx, body: &Vec<Sx>)
        ensures
            final(self).at() == old(self).at().with_node(x@, nodes_of(models(body@))),
    {
        if let Some(o) = x.as_ret() {
            if let Some(v) = o.as_obj() {
                self.fields(v, body);
            }
        }
        if let Some((_, value)) = x.as_var() {
            if let Some(v) = value.as_arr() {
                assert(self.at().spec.len() == self.spec@.len());
                if 2 <= v.len() && v.len() <= 12 && self.spec.len() == 0 {
                    if let Some(f) = read_flags(v) {
                        self.spec = f;
                    }
                }
            }
        }
    }
}

fn read_payload(body: &Vec<Sx>) -> (r: Found)
    ensures
        r.at() == payload(models(body@)),
{
    let all = harvest(body);
    let ghost m = nodes_of(models(body@));
    let mut f = Found {
        hashes: Vec::new(),
        v: String::new(),
        challenge_id: String::new(),
        timestamp: String::new(),
        key: None,
        spec: Vec::new(),
    };
    let ghost start = Harvest {
        hashes: seq![],
        v: seq![],
        challenge_id: seq![],
        timestamp: seq![],
        key: None,
        spec: seq![],
    };
    assert(f.at() =~= start);
    let mut i: usize = 0;
    while i < all.len()
        invariant
            i <= all@.len(),
            m == nodes_of(models(body@)),
            seen(all@) == m,
            f.at() == start.with_nodes(i as int, m),
        decreases all@.len() - i,
    {
        assert(m[i as int] == all@[i as int].model());
        assert(m.len() == all@.len());
        f.node(all[i], body);
        i += 1;
    }
    assert(m.len() == all@.len());
    f
}

// ------------------------------------------------------------------------ conclusion

/// What a challenge comes to.
pub struct Finding {
    pub strings: Seq<Seq<char>>,
    pub canon_vars: Seq<u64>,
    pub raw_vars: Seq<u64>,
    pub body: Seq<SxV>,
    pub found: Harvest,
    pub key: Seq<char>,
    pub ua_first: bool,
    pub probes: Seq<ProbeV>,
}

impl FloatsV {
    /// The number that the index `arg` looks up in the turned table.
    pub open spec fn looked_up_number(
        &self,
        p: PreparedV,
        strings: Seq<Seq<char>>,
        arg: u64,
    ) -> u64 {
        self.parse_int_of(
            strings[(wrap64(int64_of(arg) - int64_of(p.delta)) as int) % (strings.len() as int)],
            0,
        )
    }

    /// The numbers for the first `n` variables of the simplified program, or the
    /// first name that has no index.
    pub open spec fn canonical_vars(
        &self,
        p: PreparedV,
        strings: Seq<Seq<char>>,
        names: Seq<Seq<char>>,
        n: int,
    ) -> Result<Seq<u64>, Seq<char>>
        decreases n,
    {
        if n <= 0 || n > names.len() {
            Ok(seq![])
        } else {
            match self.canonical_vars(p, strings, names, n - 1) {
                Ok(v) => {
                    let i = crate::pipeline::mba::slot(p.t.names, 0, names[n - 1]);
                    if i < p.t.names.len() {
                        Ok(v.push(self.looked_up_number(p, strings, p.t.args[i])))
                    } else {
                        Err(names[n - 1])
                    }
                },
                Err(s) => Err(s),
            }
        }
    }

    /// What a challenge comes to after `k` turns of its table: the simplified and
    /// the plain checksum both reach the target, the script can be folded, and its
    /// payload is complete.
    pub open spec fn finding(
        &self,
        p: PreparedV,
        ops: Seq<Op>,
        names: Seq<Seq<char>>,
        k: int,
        facts: CtxV,
    ) -> Result<Finding, FlowErrV> {
        let strings = p.rotated(k);
        let raw_vars = Seq::new(
            p.t.args.len(),
            |i: int| self.looked_up_number(p, strings, p.t.args[i]),
        );
        match self.canonical_vars(p, strings, names, names.len() as int) {
            Err(s) => Err(FlowErrV::Read("канон ссылается на неизвестный слот "@ + s)),
            Ok(canon_vars) => {
                let canon = self.outcome(ops, canon_vars);
                let raw = self.outcome(p.t.ops, raw_vars);
                if !num_eq(canon, p.target) {
                    Err(
                        FlowErrV::Rotation(
                            "канон после ротации "@ + (self.shown)(canon) + " != цель "@
                                + (self.shown)(p.target),
                        ),
                    )
                } else if !num_eq(raw, p.target) {
                    Err(
                        FlowErrV::Rotation(
                            "сырой перевод "@ + (self.shown)(raw) + " != цель "@ + (self.shown)(
                                p.target,
                            ),
                        ),
                    )
                } else {
                    let main = main_body(p.program, 0);
                    let world = World { fl: *self, strings, st: p.st };
                    match world.stmts(
                        main,
                        main.len() as int,
                        0,
                        Scopes { scopes: seq![Map::empty()], log: seq![] },
                    ) {
                        Err(m) => Err(FlowErrV::Read(m)),
                        Ok((body, _)) => self.reading(body, strings, canon_vars, raw_vars, facts),
                    }
                }
            },
        }
    }

    /// What the folded script comes to.
    pub open spec fn reading(
        &self,
        body: Seq<SxV>,
        strings: Seq<Seq<char>>,
        canon_vars: Seq<u64>,
        raw_vars: Seq<u64>,
        facts: CtxV,
    ) -> Result<Finding, FlowErrV> {
        let found = payload(body);
        match found.key {
            None => Err(FlowErrV::Payload("XOR-ключ debug не найден"@)),
            Some(key) => if found.hashes.len() != 3 {
                Err(
                    FlowErrV::Payload("server_hashes: "@ + decimal(found.hashes.len()) + " шт"@),
                )
            } else if found.challenge_id.len() == 0 || found.timestamp.len() == 0 {
                Err(FlowErrV::Payload("challenge_id/timestamp пусты"@))
            } else {
                match self.probes_of(body, facts) {
                    None => Err(FlowErrV::Read("Promise.all не найден"@)),
                    Some((ua_first, probes)) => Ok(
                        Finding {
                            strings,
                            canon_vars,
                            raw_vars,
                            body,
                            found,
                            key,
                            ua_first,
                            probes,
                        },
                    ),
                }
            },
        }
    }
}

/// The model of a challenge.
pub struct Model {
    /// How far the table has been turned, and in which direction.
    pub rotation: usize,
    pub rotate_left: bool,
    /// The table in its final order.
    pub strings: Vec<String>,
    /// What the lookup function takes off its index.
    pub delta: u64,
    /// What the checksum has to reach.
    pub target: u64,
    pub egg: Report,
    /// The simplified checksum and the plain one, with their variables.
    pub checksum: Program,
    pub checksum_vars: Vec<u64>,
    pub checksum_raw: Program,
    pub checksum_raw_vars: Vec<u64>,
    pub server_hashes: Vec<String>,
    pub v: String,
    pub challenge_id: String,
    pub timestamp: String,
    pub key: String,
    pub ua_first: bool,
    pub spec: Vec<(String, bool)>,
    pub probes: Vec<Probe>,
    /// The folded script.
    pub body: Vec<Sx>,
}

/// `m` is the model of the challenge `p`, simplified to `simp`, after `k` turns.
pub open spec fn modelled(m: Model, p: PreparedV, simp: SimplifyOut, k: int, f: Finding) -> bool {
    &&& m.rotation == k
    &&& m.rotate_left == p.left
    &&& texts(m.strings@) == f.strings
    &&& m.delta == p.delta
    &&& m.target == p.target
    &&& m.egg == simp.report
    &&& m.checksum == simp.program
    &&& m.checksum_vars@ == f.canon_vars
    &&& m.checksum_raw.ops@ == p.t.ops
    &&& m.checksum_raw.n_vars == p.t.names.len()
    &&& m.checksum_raw_vars@ == f.raw_vars
    &&& texts(m.server_hashes@) == f.found.hashes
    &&& m.v@ == f.found.v
    &&& m.challenge_id@ == f.found.challenge_id
    &&& m.timestamp@ == f.found.timestamp
    &&& m.key@ == f.key
    &&& m.ua_first == f.ua_first
    &&& flag_views(m.spec@) == f.found.spec
    &&& probe_views(m.probes@) == f.probes
    &&& models(m.body@) == f.body
}

impl FloatsV {
    /// `r` is what the challenge `p`, simplified to `simp`, comes to after `k`
    /// turns.
    pub open spec fn concluded(
        &self,
        r: Result<Model, FlowErr>,
        p: PreparedV,
        simp: SimplifyOut,
        k: int,
        facts: CtxV,
    ) -> bool {
        match self.finding(p, simp.program.ops@, names_of(simp.slot_symbols@), k, facts) {
            Ok(f) => r matches Ok(m) && modelled(m, p, simp, k, f),
            Err(e) => r matches Err(x) && x@ == e,
        }
    }
}

/// A challenge that has been modelled has reached its target, by the simplified
/// checksum and by the plain one, and its payload is complete.
pub proof fn lemma_target_reached(
    fl: FloatsV,
    m: Model,
    p: PreparedV,
    simp: SimplifyOut,
    k: int,
    facts: CtxV,
)
    requires
        fl.concluded(Ok(m), p, simp, k, facts),
    ensures
        num_eq(fl.outcome(m.checksum.ops@, m.checksum_vars@), m.target),
        num_eq(fl.outcome(m.checksum_raw.ops@, m.checksum_raw_vars@), m.target),
        texts(m.strings@) == p.rotated(k),
        m.server_hashes@.len() == 3,
        m.challenge_id@.len() > 0,
        m.timestamp@.len() > 0,
{
    assert(texts(m.server_hashes@).len() == m.server_hashes@.len());
}

/// What the search looks up after `k` turns is what the table holds once it has
/// been turned `k` times, as long as no index leaves the range of 64 bits.
pub proof fn lemma_turned_lookup(p: PreparedV, arg: u64, k: int)
    requires
        p.orig.len() > 0,
        k >= 0,
        ({
            let i = wrap64(int64_of(arg) - int64_of(p.delta)) as int;
            i64::MIN <= i - k && i + k <= i64::MAX
        }),
    ensures
        p.orig[p.turned(arg, k)] == p.rotated(k)[(wrap64(
            int64_of(arg) - int64_of(p.delta),
        ) as int) % (p.orig.len() as int)],
{
    let n = p.orig.len() as int;
    let i = wrap64(int64_of(arg) - int64_of(p.delta)) as int;
    let j = i % n;
    assert(0 <= j < n);
    if p.left {
        assert((k % n + j) % n == (i + k) % n) by {
            vstd::arithmetic::div_mod::lemma_add_mod_noop(k, i, n);
        }
    } else {
        assert((n - k % n) % n + j >= 0);
        assert(((n - k % n) % n + j) % n == (i - k) % n) by {
            vstd::arithmetic::div_mod::lemma_add_mod_noop(n - k % n, i, n);
            vstd::arithmetic::div_mod::lemma_sub_mod_noop_right(n + i, k, n);
            vstd::arithmetic::div_mod::lemma_mod_add_multiples_vanish(i - k, n);
        }
    }
}

proof fn lemma_rotated(p: PreparedV, k: int, i: int)
    requires
        0 <= i < p.orig.len(),
        k >= 0,
    ensures
        p.rotated(k)[i] == p.orig[(if p.left { i + k } else { i - k }) % (p.orig.len() as int)],
{
    let n = p.orig.len() as int;
    vstd::arithmetic::div_mod::lemma_small_mod(i as nat, n as nat);
    if p.left {
        vstd::arithmetic::div_mod::lemma_add_mod_noop(k, i, n);
    } else {
        vstd::arithmetic::div_mod::lemma_add_mod_noop(n - k % n, i, n);
        vstd::arithmetic::div_mod::lemma_sub_mod_noop_right(n + i, k, n);
        vstd::arithmetic::div_mod::lemma_mod_add_multiples_vanish(i - k, n);
    }
}

#[verifier::spinoff_prover]
proof fn lemma_left_turn(p: PreparedV, k: int, i: int)
    requires
        0 <= i < p.orig.len(),
        k >= 0,
        p.left,
    ensures
        p.rotated(k + 1)[i] == p.rotated(k)[if i < p.orig.len() - 1 { i + 1 } else { 0 }],
{
    let n = p.orig.len() as int;
    lemma_rotated(p, k + 1, i);
    if i < n - 1 {
        lemma_rotated(p, k, i + 1);
        assert(i + (k + 1) == i + 1 + k);
    } else {
        lemma_rotated(p, k, 0);
        vstd::arithmetic::div_mod::lemma_mod_add_multiples_vanish(k, n);
        assert(i + (k + 1) == n + k);
    }
}

#[verifier::spinoff_prover]
proof fn lemma_right_turn(p: PreparedV, k: int, i: int)
    requires
        0 <= i < p.orig.len(),
        k >= 0,
        !p.left,
    ensures
        p.rotated(k + 1)[i] == p.rotated(k)[if i > 0 { i - 1 } else { p.orig.len() - 1 }],
{
    let n = p.orig.len() as int;
    lemma_rotated(p, k + 1, i);
    if i > 0 {
        lemma_rotated(p, k, i - 1);
        assert(i - (k + 1) == i - 1 - k);
    } else {
        lemma_rotated(p, k, n - 1);
        vstd::arithmetic::div_mod::lemma_mod_add_multiples_vanish(-1 - k, n);
        assert(n - 1 - k == n + (-1 - k));
    }
}

#[verifier::spinoff_prover]
proof fn lemma_unturned(p: PreparedV)
    requires
        p.orig.len() > 0,
    ensures
        p.rotated(0) == p.orig,
{
    let n = p.orig.len() as int;
    assert forall|i: int| 0 <= i < n implies #[trigger] p.rotated(0)[i] == p.orig[i] by {
        lemma_rotated(p, 0, i);
        vstd::arithmetic::div_mod::lemma_small_mod(i as nat, n as nat);
    }
    assert(p.rotated(0) =~= p.orig);
}

/// A table that has not been turned is as it was. Each turn to the left takes the
/// first string off and puts it last; each turn to the right takes the last one off
/// and puts it first.
#[verifier::spinoff_prover]
pub proof fn lemma_one_turn(p: PreparedV, k: int)
    requires
        p.orig.len() > 0,
        k >= 0,
    ensures
        p.rotated(0) == p.orig,
        p.left ==> p.rotated(k + 1) == p.rotated(k).drop_first().push(p.rotated(k).first()),
        !p.left ==> p.rotated(k + 1) == seq![p.rotated(k).last()] + p.rotated(k).drop_last(),
{
    let n = p.orig.len() as int;
    let (was, now) = (p.rotated(k), p.rotated(k + 1));
    assert(was.len() == n && now.len() == n);
    lemma_unturned(p);
    if p.left {
        let after = was.drop_first().push(was.first());
        assert forall|i: int| 0 <= i < n implies #[trigger] now[i] == after[i] by {
            lemma_left_turn(p, k, i);
        }
        assert(now =~= after);
    } else {
        let after = seq![was.last()] + was.drop_last();
        assert forall|i: int| 0 <= i < n implies #[trigger] now[i] == after[i] by {
            lemma_right_turn(p, k, i);
        }
        assert(now =~= after);
    }
}

fn rotate(p: &Prepared, k: usize) -> (r: Vec<String>)
    requires
        p.orig@.len() > 0,
    ensures
        texts(r@) == p@.rotated(k as int),
        r@.len() == p.orig@.len(),
{
    let n: usize = p.orig.len();
    assert(p@.orig.len() == n);
    let turns: usize = k % n;
    let start: usize = if p.left { turns } else if turns == 0 { 0 } else { n - turns };
    assert(start == (if p.left { k as int % n as int } else { (n - k as int % n as int) % n as int })) by {
        if !p.left && turns != 0 {
            vstd::arithmetic::div_mod::lemma_small_mod((n - turns) as nat, n as nat);
        }
        if turns == 0 {
            vstd::arithmetic::div_mod::lemma_mod_self_0(n as int);
        }
    }
    let mut r: Vec<String> = Vec::new();
    let mut i: usize = 0;
    while i < n
        invariant
            n == p.orig@.len(),
            p@.orig.len() == n,
            start < n,
            start == (if p.left {
                k as int % n as int
            } else {
                (n - k as int % n as int) % n as int
            }),
            i <= n,
            r@.len() == i,
            forall|j: int| 0 <= j < i ==> (#[trigger] r@[j])@ == p@.rotated(k as int)[j],
        decreases n - i,
    {
        let at: usize = if i < n - start { start + i } else { i - (n - start) };
        assert(at == (start + i) % n as int) by {
            if i < n - start {
                vstd::arithmetic::div_mod::lemma_small_mod((start + i) as nat, n as nat);
            } else {
                vstd::arithmetic::div_mod::lemma_mod_add_multiples_vanish(at as int, n as int);
                vstd::arithmetic::div_mod::lemma_small_mod(at as nat, n as nat);
            }
        }
        assert(p@.orig[at as int] == p.orig@[at as int]@);
        r.push(own(p.orig[at].as_str()));
        i += 1;
    }
    assert(texts(r@) =~= p@.rotated(k as int));
    r
}

fn number_at<F: FloatOps>(p: &Prepared, strings: &Vec<String>, arg: u64, fl: &F) -> (r: u64)
    requires
        fl.ok(),
        strings@.len() > 0,
    ensures
        r == fl.model().looked_up_number(p@, texts(strings@), arg),
{
    let n: usize = strings.len();
    assert(texts(strings@).len() == n);
    let i: usize = mod_i64(sub64(to_i64(arg), to_i64(p.delta)), n);
    assert(texts(strings@)[i as int] == strings@[i as int]@);
    js_parse_int(strings[i].as_str(), fl)
}

fn pair_slot(v: &Vec<(String, u64)>, name: &str) -> (r: usize)
    ensures
        r == crate::pipeline::mba::slot(Seq::new(v@.len(), |i: int| v@[i].0@), 0, name@),
        r <= v@.len(),
{
    let ghost names = Seq::new(v@.len(), |i: int| v@[i].0@);
    let mut i: usize = 0;
    while i < v.len()
        invariant
            names == Seq::new(v@.len(), |i: int| v@[i].0@),
            i <= v@.len(),
            crate::pipeline::mba::slot(names, 0, name@) == crate::pipeline::mba::slot(
                names,
                i as int,
                name@,
            ),
        decreases v@.len() - i,
    {
        if str_eq(v[i].0.as_str(), name) {
            return i;
        }
        i += 1;
    }
    i
}

impl FloatsV {
    proof fn lemma_vars_fail(
        &self,
        p: PreparedV,
        strings: Seq<Seq<char>>,
        names: Seq<Seq<char>>,
        k: int,
        n: int,
    )
        requires
            0 <= k <= n <= names.len(),
            self.canonical_vars(p, strings, names, k) is Err,
        ensures
            self.canonical_vars(p, strings, names, n) == self.canonical_vars(p, strings, names, k),
        decreases n,
    {
        if k < n {
            self.lemma_vars_fail(p, strings, names, k, n - 1);
        }
    }
}

fn canonical_row<F: FloatOps>(
    p: &Prepared,
    strings: &Vec<String>,
    names: &Vec<String>,
    fl: &F,
) -> (r: Result<Vec<u64>, FlowErr>)
    requires
        fl.ok(),
        ready(*p),
        strings@.len() > 0,
    ensures
        match fl.model().canonical_vars(
            p@,
            texts(strings@),
            names_of(names@),
            names_of(names@).len() as int,
        ) {
            Ok(v) => r matches Ok(w) && w@ == v,
            Err(s) => r matches Err(e) && e@ == FlowErrV::Read(
                "канон ссылается на неизвестный слот "@ + s,
            ),
        },
{
    let ghost m = fl.model();
    let ghost ss = texts(strings@);
    let ghost ns = names_of(names@);
    assert(ns.len() == names@.len());
    let mut v: Vec<u64> = Vec::new();
    let mut i: usize = 0;
    assert(v@ =~= seq![]);
    while i < names.len()
        invariant
            fl.ok(),
            ready(*p),
            m == fl.model(),
            strings@.len() > 0,
            ss == texts(strings@),
            ns == names_of(names@),
            ns.len() == names@.len(),
            i <= names@.len(),
            m.canonical_vars(p@, ss, ns, i as int) == Ok::<Seq<u64>, Seq<char>>(v@),
        decreases names@.len() - i,
    {
        let name = names[i].as_str();
        assert(ns[i as int] == name@);
        let at: usize = pair_slot(&p.t.var_pairs, name);
        assert(p@.t.names.len() == p.t.var_pairs@.len());
        if at == p.t.var_pairs.len() {
            proof {
                m.lemma_vars_fail(p@, ss, ns, i + 1, ns.len() as int);
            }
            return Err(FlowErr::Read(join2("канон ссылается на неизвестный слот ", name)));
        }
        let arg: u64 = p.t.var_pairs[at].1;
        assert(arg == p@.t.args[at as int]);
        v.push(number_at(p, strings, arg, fl));
        i += 1;
    }
    Ok(v)
}

fn raw_row<F: FloatOps>(p: &Prepared, strings: &Vec<String>, fl: &F) -> (r: Vec<u64>)
    requires
        fl.ok(),
        strings@.len() > 0,
    ensures
        r@ == Seq::new(
            p@.t.args.len(),
            |i: int| fl.model().looked_up_number(p@, texts(strings@), p@.t.args[i]),
        ),
{
    let ghost want = Seq::new(
        p@.t.args.len(),
        |i: int| fl.model().looked_up_number(p@, texts(strings@), p@.t.args[i]),
    );
    let mut v: Vec<u64> = Vec::new();
    let mut i: usize = 0;
    while i < p.t.var_args.len()
        invariant
            fl.ok(),
            strings@.len() > 0,
            i <= p.t.var_args@.len(),
            v@.len() == i,
            want == Seq::new(
                p@.t.args.len(),
                |i: int| fl.model().looked_up_number(p@, texts(strings@), p@.t.args[i]),
            ),
            forall|j: int| 0 <= j < i ==> #[trigger] v@[j] == want[j],
        decreases p.t.var_args@.len() - i,
    {
        v.push(number_at(p, strings, p.t.var_args[i], fl));
        i += 1;
    }
    assert(v@ =~= want);
    v
}

fn fold_script<F: FloatOps>(p: &Prepared, strings: &Vec<String>, fl: &F) -> (r: Result<
    Vec<Sx>,
    FlowErr,
>)
    requires
        fl.ok(),
        strings@.len() > 0,
    ensures
        ({
            let main = main_body(p.program@, 0);
            let world = World { fl: fl.model(), strings: texts(strings@), st: p.st@ };
            match world.stmts(
                main,
                main.len() as int,
                0,
                Scopes { scopes: seq![Map::empty()], log: seq![] },
            ) {
                Ok((body, _)) => r matches Ok(b) && models(b@) == body,
                Err(m) => r matches Err(e) && e@ == FlowErrV::Read(m),
            }
        }),
{
    let mut outer: Vec<Vec<(String, Sx)>> = Vec::new();
    outer.push(Vec::new());
    let mut d = Deob { fl, strings, st: &p.st, scopes: outer, mutated: Vec::new(), depth: 0 };
    assert(d.state() =~= Scopes { scopes: seq![Map::empty()], log: seq![] });
    match top_body(&p.program) {
        Some(b) => match d.stmts(b) {
            Ok(x) => Ok(x),
            Err(m) => Err(FlowErr::Read(m)),
        },
        None => {
            let none: Vec<Sx> = Vec::new();
            assert(models(none@) =~= seq![]);
            Ok(none)
        },
    }
}

/// What a challenge comes to after `k` turns of its table, given its simplified
/// checksum.
pub fn conclude<F: FloatOps>(
    p: Prepared,
    simp: SimplifyOut,
    k: usize,
    attrs: &[(String, String)],
    globals: &[String],
    fl: &F,
) -> (r: Result<Model, FlowErr>)
    requires
        fl.ok(),
        ready(p),
        height(simp.program.ops@) is Some,
    ensures
        fl.model().concluded(
            r,
            p@,
            simp,
            k as int,
            CtxV { attached_styled: false, attrs: pair_texts(attrs@), globals: texts(globals@) },
        ),
{
    let strings = rotate(&p, k);
    let canon_vars = match canonical_row(&p, &strings, &simp.slot_symbols, fl) {
        Ok(v) => v,
        Err(e) => return Err(e),
    };
    let raw_vars = raw_row(&p, &strings, fl);
    proof {
        fl.model().lemma_supplied(simp.program.ops@, canon_vars@);
        fl.model().lemma_supplied(p.t.program.ops@, raw_vars@);
    }
    let canon: u64 = simp.program.eval(canon_vars.as_slice(), fl);
    if !equal(canon, p.target) {
        let mut s = own("канон после ротации ");
        s.push_str(fl.write(canon).as_str());
        s.push_str(" != цель ");
        s.push_str(fl.write(p.target).as_str());
        return Err(FlowErr::Rotation(s));
    }
    let raw: u64 = p.t.program.eval(raw_vars.as_slice(), fl);
    if !equal(raw, p.target) {
        let mut s = own("сырой перевод ");
        s.push_str(fl.write(raw).as_str());
        s.push_str(" != цель ");
        s.push_str(fl.write(p.target).as_str());
        return Err(FlowErr::Rotation(s));
    }
    let body = match fold_script(&p, &strings, fl) {
        Ok(b) => b,
        Err(e) => return Err(e),
    };
    let found = read_payload(&body);
    let key = match found.key {
        Some(k) => k,
        None => return Err(FlowErr::Payload(own("XOR-ключ debug не найден"))),
    };
    assert(texts(found.hashes@).len() == found.hashes@.len());
    if found.hashes.len() != 3 {
        return Err(
            FlowErr::Payload(
                join3("server_hashes: ", dec_usize(found.hashes.len()).as_str(), " шт"),
            ),
        );
    }
    if found.challenge_id.as_str().is_empty() || found.timestamp.as_str().is_empty() {
        return Err(FlowErr::Payload(own("challenge_id/timestamp пусты")));
    }
    let (ua_first, probes) = match extract_probes(&body, attrs, globals, fl) {
        Some(x) => x,
        None => return Err(FlowErr::Read(own("Promise.all не найден"))),
    };
    Ok(
        Model {
            rotation: k,
            rotate_left: p.left,
            strings,
            delta: p.delta,
            target: p.target,
            egg: simp.report,
            checksum: simp.program,
            checksum_vars: canon_vars,
            checksum_raw: p.t.program,
            checksum_raw_vars: raw_vars,
            server_hashes: found.hashes,
            v: found.v,
            challenge_id: found.challenge_id,
            timestamp: found.timestamp,
            key,
            ua_first,
            spec: found.spec,
            probes,
            body,
        },
    )
}

/// `r` is what a challenge comes to that has been simplified to `simp`: the table
/// is turned until the checksum reaches its target.
pub open spec fn carried_through<N: Fn(u64, &Program, &Vec<u64>) -> Option<u64>>(
    fl: FloatsV,
    r: Result<Model, FlowErr>,
    p: PreparedV,
    simp: SimplifyOut,
    native: N,
    vals: Seq<u64>,
    facts: CtxV,
) -> bool {
    &&& fl.values(p, simp, native, vals)
    &&& exists|turns: Result<usize, FlowErr>| #[trigger]
        fl.searched(p, vals, turns) && match turns {
            Ok(k) => fl.concluded(r, p, simp, k as int, facts),
            Err(e) => r matches Err(x) && x@ == e@,
        }
}

/// The outcome of [`run`] once the checksum has been simplified to the tree `c`.
pub open spec fn run_outcome<N: Fn(u64, &Program, &Vec<u64>) -> Option<u64>>(
    fl: FloatsV,
    r: Result<Model, FlowErr>,
    p: PreparedV,
    c: (Vec<Math>, String),
    native: N,
    facts: CtxV,
) -> bool {
    exists|simp: SimplifyOut, vals: Seq<u64>|
        simplified(simp, p.t.nodes.len() as usize, node_views(c.0@), c.1@) && #[trigger]
        carried_through(fl, r, p, simp, native, vals, facts)
}

/// Models a challenge. `simplifier` brings its checksum to a simpler form, `native`
/// may compute the simplified checksum in place of its program.
pub fn run<F, S, N>(
    src: &str,
    attrs: &[(String, String)],
    globals: &[String],
    fl: &F,
    simplifier: &S,
    native: &N,
) -> (r: Result<Model, FlowErr>) where
    F: FloatOps,
    S: Fn(&Vec<Math>) -> (Vec<Math>, String),
    N: Fn(u64, &Program, &Vec<u64>) -> Option<u64>,

    requires
        fl.ok(),
        simplifies(*simplifier),
        is_native(*native),
    ensures
        match fl.model().prepared_source(src@) {
            Err(e) => r matches Err(x) && x@ == e,
            Ok(p) => exists|v: &Vec<Math>, c: (Vec<Math>, String)|
                node_views(v@) == p.t.nodes && #[trigger] call_ensures(*simplifier, (v,), c)
                    && run_outcome(
                    fl.model(),
                    r,
                    p,
                    c,
                    *native,
                    CtxV {
                        attached_styled: false,
                        attrs: pair_texts(attrs@),
                        globals: texts(globals@),
                    },
                ),
        },
{
    let program = match parse(src, ROOM) {
        Ok(b) => b,
        Err(m) => return Err(FlowErr::Parse(m)),
    };
    let p = match prepare(program, fl) {
        Ok(p) => p,
        Err(e) => return Err(e),
    };
    let ghost pv = p@;
    let ghost facts = CtxV {
        attached_styled: false,
        attrs: pair_texts(attrs@),
        globals: texts(globals@),
    };
    let simp = simplify(&p.t.nodes, simplifier);
    assert(pv.t.nodes.len() == p.t.nodes@.len());
    let ghost c = choose|c: (Vec<Math>, String)| #[trigger]
        call_ensures(*simplifier, (&p.t.nodes,), c) && simplified(
            simp,
            p.t.nodes@.len() as usize,
            node_views(c.0@),
            c.1@,
        );
    let ghost sv = simp;
    let turns = find_turns(&p, &simp, fl, native);
    let ghost vals = choose|vals: Seq<u64>| #[trigger]
        fl.model().values(pv, sv, *native, vals) && fl.model().searched(pv, vals, turns);
    match turns {
        Ok(k) => {
            let r = conclude(p, simp, k, attrs, globals, fl);
            assert(carried_through(fl.model(), r, pv, sv, *native, vals, facts));
            assert(run_outcome(fl.model(), r, pv, c, *native, facts));
            r
        },
        Err(e) => {
            let ghost ev = e;
            assert(carried_through(fl.model(), Err(ev), pv, sv, *native, vals, facts));
            assert(run_outcome(fl.model(), Err(ev), pv, c, *native, facts));
            Err(e)
        },
    }
}

} // verus!
