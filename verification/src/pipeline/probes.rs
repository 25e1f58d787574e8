//! The probes of a challenge: what each one reads and what it evaluates to.
use vstd::prelude::*;

use crate::floats::{ArithOp, FloatOps, FloatsV};
use crate::jsnum::{bits_of_nat, from_u64, ONE};
use crate::pipeline::checks::{
    check_value, has_call, has_member, has_prop, is_member, is_prop, is_ref, member_is, pair_texts, prop_is,
    ref_is, verdict, with_call, with_member, with_prop, CheckVal, CtxV, ProbeCtx,
};
use crate::pipeline::html::{measures, try_metrics};
use crate::pipeline::render::render_sx;
use crate::pipeline::sx::{harvest, models, nodes, nodes_in, nodes_of, seen, texts, Sx, SxV};
use crate::text::{debug_str, debug_text, dec_u64, decimal, own, str_eq};

verus! {

/// Something that a probe reads from its environment.
pub enum Read {
    NavUa,
    Env { desc: String },
}

/// One probe: what it reads that its form does not settle, the number it starts
/// from, and its value where that is settled.
pub struct Probe {
    pub reads: Vec<Read>,
    pub base: Option<u64>,
    pub value: Option<u64>,
}

/// A [`Read`] as a mathematical value.
pub enum ReadV {
    NavUa,
    Env { desc: Seq<char> },
}

/// A [`Probe`] as a mathematical value.
pub struct ProbeV {
    pub reads: Seq<ReadV>,
    pub base: Option<u64>,
    pub value: Option<u64>,
}

impl View for Read {
    type V = ReadV;

    open spec fn view(&self) -> ReadV {
        match self {
            Read::NavUa => ReadV::NavUa,
            Read::Env { desc } => ReadV::Env { desc: desc@ },
        }
    }
}

/// The values of a list of reads.
pub open spec fn read_views(v: Seq<Read>) -> Seq<ReadV> {
    Seq::new(v.len(), |i: int| v[i]@)
}

impl View for Probe {
    type V = ProbeV;

    open spec fn view(&self) -> ProbeV {
        ProbeV { reads: read_views(self.reads@), base: self.base, value: self.value }
    }
}

/// The values of a list of probes.
pub open spec fn probe_views(v: Seq<Probe>) -> Seq<ProbeV> {
    Seq::new(v.len(), |i: int| v[i]@)
}

// -------------------------------------------------------- the key of the payload

/// `....charCodeAt(...)`.
pub open spec fn char_code(sx: SxV) -> bool {
    sx matches SxV::Call { callee, .. } && is_prop(*callee, "charCodeAt"@)
}

fn is_charcodeat(sx: &Sx) -> (r: bool)
    ensures
        r == char_code(sx@),
{
    match sx.as_call() {
        Some((callee, _)) => prop_is(callee, "charCodeAt"),
        None => false,
    }
}

/// The first variable named `name`, from place `i` on, that holds a string.
pub open spec fn string_var(v: Seq<SxV>, i: int, name: Seq<char>) -> Option<Seq<char>>
    decreases v.len() - i,
{
    if i < 0 || i >= v.len() {
        None
    } else {
        match v[i] {
            SxV::Var { name: n, value } => if n == name && *value is Str {
                Some(value->Str_0)
            } else {
                string_var(v, i + 1, name)
            },
            _ => string_var(v, i + 1, name),
        }
    }
}

fn find_string_var<'a>(v: &Vec<&'a Sx>, name: &str) -> (r: Option<&'a str>)
    ensures
        match string_var(seen(v@), 0, name@) {
            Some(s) => r matches Some(t) && t@ == s,
            None => r is None,
        },
{
    let mut i: usize = 0;
    while i < v.len()
        invariant
            i <= v@.len(),
            string_var(seen(v@), 0, name@) == string_var(seen(v@), i as int, name@),
        decreases v@.len() - i,
    {
        assert(seen(v@)[i as int] == v@[i as int].model());
        if let Some((n, value)) = v[i].as_var() {
            if let Some(s) = value.as_text() {
                if str_eq(n, name) {
                    return Some(s);
                }
            }
        }
        i += 1;
    }
    None
}

/// `a` takes a character code off the key and `b` another one: the key is a
/// string, or a variable that holds one, unless a key is known by then.
pub open spec fn key_step(
    known: Option<Seq<char>>,
    a: SxV,
    b: SxV,
    body: Seq<SxV>,
) -> Option<Seq<char>> {
    if char_code(a) && char_code(b) {
        match *(*a->Call_callee)->Member_obj {
            SxV::Str(s) => Some(s),
            SxV::Ref(name) => match known {
                Some(k) => Some(k),
                None => string_var(body, 0, name),
            },
            _ => known,
        }
    } else {
        known
    }
}

/// The key that an exclusive or of two character codes shows.
pub open spec fn key_at(sx: SxV, body: Seq<SxV>) -> Option<Seq<char>> {
    match sx {
        SxV::Bin { op, l, r } => if op == "^"@ {
            key_step(key_step(None, *l, *r, body), *r, *l, body)
        } else {
            None
        },
        _ => None,
    }
}

/// The first key that the nodes from place `i` on show.
pub open spec fn first_key(v: Seq<SxV>, i: int, body: Seq<SxV>) -> Option<Seq<char>>
    decreases v.len() - i,
{
    if i < 0 || i >= v.len() {
        None
    } else {
        match key_at(v[i], body) {
            Some(k) => Some(k),
            None => first_key(v, i + 1, body),
        }
    }
}

fn step_key<'a>(known: Option<&'a str>, a: &'a Sx, b: &Sx, body: &Vec<&'a Sx>) -> (r: Option<&'a str>)
    ensures
        match key_step(
            match known {
                Some(k) => Some(k@),
                None => None,
            },
            a@,
            b@,
            seen(body@),
        ) {
            Some(s) => r matches Some(t) && t@ == s,
            None => r is None,
        },
{
    if !is_charcodeat(a) || !is_charcodeat(b) {
        return known;
    }
    if let Some((callee, _)) = a.as_call() {
        if let Some((obj, _)) = callee.as_member() {
            if let Some(s) = obj.as_text() {
                return Some(s);
            }
            if let Some(name) = obj.as_name() {
                return match known {
                    Some(k) => Some(k),
                    None => find_string_var(body, name),
                };
            }
        }
    }
    known
}

/// The key of the debug field: the string whose character codes are combined
/// with others by exclusive or.
pub fn find_xor_key(debug: &Sx, body: &Vec<Sx>) -> (r: Option<String>)
    ensures
        match first_key(nodes(debug@), 0, nodes_of(models(body@))) {
            Some(k) => r matches Some(s) && s@ == k,
            None => r is None,
        },
{
    let all = harvest(body);
    let v = nodes_in(debug);
    let mut i: usize = 0;
    while i < v.len()
        invariant
            i <= v@.len(),
            seen(v@) == nodes(debug@),
            seen(all@) == nodes_of(models(body@)),
            first_key(nodes(debug@), 0, seen(all@)) == first_key(
                nodes(debug@),
                i as int,
                seen(all@),
            ),
        decreases v@.len() - i,
    {
        assert(nodes(debug@)[i as int] == v@[i as int].model());
        if let Some((op, l, r)) = v[i].as_bin() {
            if str_eq(op, "^") {
                let one = step_key(None, l, r, &all);
                let two = step_key(one, r, l, &all);
                if let Some(k) = two {
                    return Some(own(k));
                }
            }
        }
        i += 1;
    }
    assert(nodes(debug@).len() == v@.len());
    None
}

// -------------------------------------------------------------- what is returned

/// The last expression of a sequence.
pub open spec fn last_of(sx: SxV) -> SxV
    decreases sx,
{
    match sx {
        SxV::Sequence(v) => if v.len() > 0 { last_of(v[v.len() - 1]) } else { sx },
        _ => sx,
    }
}

fn unseq_last<'a>(sx: &'a Sx) -> (r: &'a Sx)
    ensures
        r@ == last_of(sx@),
    decreases sx,
{
    match sx {
        Sx::Sequence(v) => {
            assert(models(v@).len() == v@.len());
            if v.len() > 0 {
                assert(models(v@)[v@.len() - 1] == v@[v@.len() - 1].model());
                unseq_last(&v[v.len() - 1])
            } else {
                sx
            }
        },
        _ => sx,
    }
}

/// What a statement may return, in the order it is written.
pub open spec fn returned(sx: SxV) -> Seq<SxV>
    decreases sx, 0int,
{
    match sx {
        SxV::Ret(x) => match x {
            Some(x) => seq![last_of(*x)],
            None => seq![],
        },
        SxV::Block(v) => returned_all(v, v.len() as int),
        SxV::Sequence(v) => returned_all(v, v.len() as int),
        SxV::If { c, a, .. } => returned_all(c, c.len() as int) + returned_all(a, a.len() as int),
        SxV::Try { body, handler, fin } => returned_all(body, body.len() as int) + match handler {
            Some(h) => returned_all(h.1, h.1.len() as int),
            None => seq![],
        } + returned_all(fin, fin.len() as int),
        SxV::For { body, .. } => returned_all(body, body.len() as int),
        SxV::While { body, .. } => returned_all(body, body.len() as int),
        SxV::Fn { body, .. } => returned_all(body, body.len() as int),
        _ => seq![],
    }
}

/// What the first `n` nodes return.
pub open spec fn returned_all(v: Seq<SxV>, n: int) -> Seq<SxV>
    decreases v, n,
{
    if n <= 0 || n > v.len() {
        seq![]
    } else {
        returned_all(v, n - 1) + returned(v[n - 1])
    }
}

fn push_returned_all<'a>(v: &'a Vec<Sx>, out: &mut Vec<&'a Sx>)
    ensures
        seen(final(out)@) == seen(old(out)@) + returned_all(models(v@), models(v@).len() as int),
    decreases v, 0int,
{
    let ghost start = seen(out@);
    let ghost m = models(v@);
    let mut i: usize = 0;
    assert(seen(out@) =~= start + returned_all(m, 0));
    while i < v.len()
        invariant
            i <= v@.len(),
            m == models(v@),
            seen(out@) == start + returned_all(m, i as int),
        decreases v@.len() - i,
    {
        push_returned(&v[i], out);
        i += 1;
        assert(seen(out@) =~= start + returned_all(m, i as int));
    }
}

fn push_returned<'a>(sx: &'a Sx, out: &mut Vec<&'a Sx>)
    ensures
        seen(final(out)@) == seen(old(out)@) + returned(sx@),
    decreases sx, 0int,
{
    let ghost start = seen(out@);
    match sx {
        Sx::Ret(x) => {
            if let Some(x) = x {
                out.push(unseq_last(x));
            }
        },
        Sx::Block(v) | Sx::Sequence(v) => push_returned_all(v, out),
        Sx::If { c, a, .. } => {
            push_returned_all(c, out);
            push_returned_all(a, out);
        },
        Sx::Try { body, handler, fin } => {
            push_returned_all(body, out);
            if let Some(h) = handler {
                push_returned_all(&h.1, out);
            }
            push_returned_all(fin, out);
        },
        Sx::For { body, .. } | Sx::While { body, .. } | Sx::Fn { body, .. } => push_returned_all(
            body,
            out,
        ),
        _ => {},
    }
    assert(seen(out@) =~= start + returned(sx@));
}

/// `String(...)` with an argument.
pub open spec fn string_call(sx: SxV) -> bool {
    sx matches SxV::Call { callee, args } && args.len() > 0 && is_ref(*callee, "String"@)
}

fn is_string_call(sx: &Sx) -> (r: bool)
    ensures
        r == string_call(sx@),
{
    match sx.as_call() {
        Some((callee, args)) => args.len() > 0 && ref_is(callee, "String"),
        None => false,
    }
}

/// The first string call among the expressions from place `i` on.
pub open spec fn first_string_call(v: Seq<SxV>, i: int) -> Option<SxV>
    decreases v.len() - i,
{
    if i < 0 || i >= v.len() {
        None
    } else if string_call(v[i]) {
        Some(v[i])
    } else {
        first_string_call(v, i + 1)
    }
}

/// What a function returns in the end: the first string call among the
/// expressions it may return, or else the first of them.
pub open spec fn main_return(body: Seq<SxV>) -> Option<SxV> {
    let all = returned_all(body, body.len() as int);
    match first_string_call(all, 0) {
        Some(x) => Some(x),
        None => if all.len() > 0 { Some(all[0]) } else { None },
    }
}

fn find_return_string<'a>(body: &'a Vec<Sx>) -> (r: Option<&'a Sx>)
    ensures
        match main_return(models(body@)) {
            Some(x) => r matches Some(y) && y@ == x,
            None => r is None,
        },
{
    let mut v: Vec<&Sx> = Vec::new();
    push_returned_all(body, &mut v);
    let ghost all = returned_all(models(body@), models(body@).len() as int);
    assert(seen(v@) =~= all);
    let mut i: usize = 0;
    while i < v.len()
        invariant
            i <= v@.len(),
            all == returned_all(models(body@), models(body@).len() as int),
            seen(v@) == all,
            first_string_call(all, 0) == first_string_call(all, i as int),
        decreases v@.len() - i,
    {
        assert(all[i as int] == v@[i as int].model());
        if is_string_call(v[i]) {
            return Some(v[i]);
        }
        i += 1;
    }
    assert(all.len() == v@.len());
    if v.len() > 0 {
        assert(all[0] == v@[0].model());
        Some(v[0])
    } else {
        None
    }
}

// ------------------------------------------------------------------ metric probes

/// The number among the operands of a sum, the outer ones first.
pub open spec fn addend(sx: SxV) -> Option<u64>
    decreases sx,
{
    match sx {
        SxV::Bin { op, l, r } => if op != "+"@ {
            None
        } else if *l is Num {
            Some(l->Num_0)
        } else if *r is Num {
            Some(r->Num_0)
        } else {
            match addend(*l) {
                Some(n) => Some(n),
                None => addend(*r),
            }
        },
        _ => None,
    }
}

fn addend_const(sx: &Sx) -> (r: Option<u64>)
    ensures
        r == addend(sx@),
    decreases sx,
{
    match sx {
        Sx::Bin { op, l, r } => {
            if !str_eq(op, "+") {
                return None;
            }
            if let Some(n) = l.as_num() {
                return Some(n);
            }
            if let Some(n) = r.as_num() {
                return Some(n);
            }
            match addend_const(l) {
                Some(n) => Some(n),
                None => addend_const(r),
            }
        },
        _ => None,
    }
}

/// `....innerHTML = "..."`: the string.
pub open spec fn html_literal(sx: SxV) -> Option<Seq<char>> {
    match sx {
        SxV::Assign { target, op, value } => if op == "="@ && is_prop(*target, "innerHTML"@)
            && *value is Str {
            Some(value->Str_0)
        } else {
            None
        },
        _ => None,
    }
}

/// The first such string among the nodes from place `i` on.
pub open spec fn first_html(v: Seq<SxV>, i: int) -> Option<Seq<char>>
    decreases v.len() - i,
{
    if i < 0 || i >= v.len() {
        None
    } else {
        match html_literal(v[i]) {
            Some(t) => Some(t),
            None => first_html(v, i + 1),
        }
    }
}

fn find_html<'a>(body: &'a Vec<Sx>) -> (r: Option<&'a str>)
    ensures
        match first_html(nodes_of(models(body@)), 0) {
            Some(s) => r matches Some(t) && t@ == s,
            None => r is None,
        },
{
    let v = harvest(body);
    let ghost all = nodes_of(models(body@));
    let mut i: usize = 0;
    while i < v.len()
        invariant
            i <= v@.len(),
            all == nodes_of(models(body@)),
            seen(v@) == all,
            first_html(all, 0) == first_html(all, i as int),
        decreases v@.len() - i,
    {
        assert(all[i as int] == v@[i as int].model());
        if let Some((target, op, value)) = v[i].as_assign() {
            if let Some(t) = value.as_text() {
                if str_eq(op, "=") && prop_is(target, "innerHTML") {
                    return Some(t);
                }
            }
        }
        i += 1;
    }
    assert(all.len() == v@.len());
    None
}

/// Both numbers and their product fit in a `usize`.
pub open spec fn can_be_held(m: (nat, nat)) -> bool {
    m.0 <= usize::MAX && m.1 <= usize::MAX && m.0 * m.1 <= usize::MAX
}

impl FloatsV {
    /// A probe that measures a fragment: its base and the product of the two
    /// measures. There is none where the form is another one, where no number is
    /// added or no fragment is assigned, or where a measure or the product is more
    /// than a `usize` holds.
    pub open spec fn metric(&self, inner: SxV, body: Option<Seq<SxV>>) -> Option<ProbeV> {
        if !(with_prop(inner, "innerHTML"@) && with_call(inner, "querySelectorAll"@)) {
            None
        } else {
            match (addend(inner), body) {
                (Some(base), Some(b)) => match first_html(nodes_of(b), 0) {
                    Some(html) => if can_be_held(measures(html)) {
                        let m = measures(html);
                        Some(
                            ProbeV {
                                reads: seq![
                                    ReadV::Env {
                                        desc: "innerHTML("@ + debug_text(html) + ") → len="@
                                            + decimal(m.0) + " count="@ + decimal(m.1)
                                            + " [WHATWG-парсер]"@,
                                    },
                                ],
                                base: Some(base),
                                value: Some(
                                    (self.op)(
                                        ArithOp::Add,
                                        base,
                                        bits_of_nat(m.0 * m.1) as u64,
                                    ),
                                ),
                            },
                        )
                    } else {
                        None
                    },
                    None => None,
                },
                _ => None,
            }
        }
    }
}

/// The trees of a body that may be missing.
pub open spec fn opt_body(b: Option<&Vec<Sx>>) -> Option<Seq<SxV>> {
    match b {
        Some(v) => Some(models(v@)),
        None => None,
    }
}

/// `r` is the probe `p`, and both are there or neither is.
pub open spec fn same_probe(r: Option<Probe>, p: Option<ProbeV>) -> bool {
    match p {
        Some(x) => r matches Some(y) && y@ == x,
        None => r is None,
    }
}

fn metric_probe<F: FloatOps>(inner: &Sx, body: Option<&Vec<Sx>>, fl: &F) -> (r: Option<Probe>)
    requires
        fl.ok(),
    ensures
        same_probe(r, fl.model().metric(inner@, opt_body(body))),
{
    if !has_prop(inner, "innerHTML") || !has_call(inner, "querySelectorAll") {
        return None;
    }
    let base: u64 = match addend_const(inner) {
        Some(n) => n,
        None => return None,
    };
    let body = match body {
        Some(b) => b,
        None => return None,
    };
    let html = match find_html(body) {
        Some(t) => t,
        None => return None,
    };
    let (len, count) = match try_metrics(html) {
        Some(m) => m,
        None => return None,
    };
    let product: usize = match len.checked_mul(count) {
        Some(n) => n,
        None => return None,
    };
    let value: u64 = fl.compute(ArithOp::Add, base, from_u64(product as u64));
    let mut desc = own("innerHTML(");
    desc.push_str(debug_str(html).as_str());
    desc.push_str(") → len=");
    desc.push_str(dec_u64(len as u64).as_str());
    desc.push_str(" count=");
    desc.push_str(dec_u64(count as u64).as_str());
    desc.push_str(" [WHATWG-парсер]");
    let mut reads: Vec<Read> = Vec::new();
    reads.push(Read::Env { desc });
    let p = Probe { reads, base: Some(base), value: Some(value) };
    assert(p@.reads =~= fl.model().metric(inner@, opt_body(Some(body)))->0.reads);
    Some(p)
}

// --------------------------------------------------------------------- sum probes

/// What has been summed up of a probe's checks.
pub struct Tally {
    pub reads: Seq<ReadV>,
    pub sum: u64,
    pub open: bool,
}

impl FloatsV {
    /// The first `n` checks: each true one adds one; one that reads the user agent
    /// or that no form settles leaves the value open.
    pub open spec fn tally(&self, checks: Seq<SxV>, n: int, base: u64, ctx: CtxV) -> Tally
        decreases n,
    {
        if n <= 0 || n > checks.len() {
            Tally { reads: seq![], sum: base, open: false }
        } else {
            let t = self.tally(checks, n - 1, base, ctx);
            let c = checks[n - 1];
            if with_member(c, "navigator"@, "userAgent"@) {
                Tally { reads: t.reads.push(ReadV::NavUa), sum: t.sum, open: true }
            } else {
                match verdict(*self, c, ctx) {
                    CheckVal::True => Tally {
                        reads: t.reads,
                        sum: (self.op)(ArithOp::Add, t.sum, ONE),
                        open: t.open,
                    },
                    CheckVal::False => t,
                    CheckVal::Unknown => Tally {
                        reads: t.reads.push(ReadV::Env { desc: self.code(c, 0) }),
                        sum: t.sum,
                        open: true,
                    },
                }
            }
        }
    }

    /// A probe that adds up checks.
    pub open spec fn summed(
        &self,
        base: u64,
        checks: Seq<SxV>,
        body: Option<Seq<SxV>>,
        facts: CtxV,
    ) -> ProbeV {
        let t = self.tally(
            checks,
            checks.len() as int,
            base,
            CtxV { attached_styled: attaches_styled(body), attrs: facts.attrs, globals: facts.globals },
        );
        ProbeV { reads: t.reads, base: Some(base), value: if t.open { None } else { Some(t.sum) } }
    }
}

/// A probe that adds up checks has a value if and only if its form settles every
/// check and none reads the user agent: there is no guessing.
pub proof fn lemma_no_guess(
    fl: FloatsV,
    base: u64,
    checks: Seq<SxV>,
    body: Option<Seq<SxV>>,
    facts: CtxV,
)
    ensures
        fl.summed(base, checks, body, facts).value is Some <==> forall|i: int|
            0 <= i < checks.len() ==> settled(
                fl,
                #[trigger] checks[i],
                CtxV { attached_styled: attaches_styled(body), ..facts },
            ),
{
    lemma_tally_open(
        fl,
        checks,
        checks.len() as int,
        base,
        CtxV { attached_styled: attaches_styled(body), ..facts },
    );
}

/// The check does not read the user agent, and its form decides it.
pub open spec fn settled(fl: FloatsV, c: SxV, ctx: CtxV) -> bool {
    !with_member(c, "navigator"@, "userAgent"@) && verdict(fl, c, ctx) !is Unknown
}

proof fn lemma_tally_open(fl: FloatsV, checks: Seq<SxV>, n: int, base: u64, ctx: CtxV)
    requires
        0 <= n <= checks.len(),
    ensures
        !fl.tally(checks, n, base, ctx).open <==> forall|i: int|
            0 <= i < n ==> settled(fl, #[trigger] checks[i], ctx),
    decreases n,
{
    if n > 0 {
        lemma_tally_open(fl, checks, n - 1, base, ctx);
    }
}

/// `....cssText` is assigned to.
pub open spec fn styles(sx: SxV) -> bool {
    sx matches SxV::Assign { target, .. } && is_prop(*target, "cssText"@)
}

/// `....appendChild(...)`.
pub open spec fn attaches(sx: SxV) -> bool {
    sx matches SxV::Call { callee, .. } && is_prop(*callee, "appendChild"@)
}

/// Some of the nodes styles an element.
pub open spec fn some_style(v: Seq<SxV>) -> bool {
    exists|i: int| 0 <= i < v.len() && styles(#[trigger] v[i])
}

/// Some of the nodes attaches an element.
pub open spec fn some_attach(v: Seq<SxV>) -> bool {
    exists|i: int| 0 <= i < v.len() && attaches(#[trigger] v[i])
}

/// The body both styles an element and attaches one.
pub open spec fn attaches_styled(body: Option<Seq<SxV>>) -> bool {
    match body {
        Some(b) => some_style(nodes_of(b)) && some_attach(nodes_of(b)),
        None => false,
    }
}

fn does_style(sx: &Sx) -> (r: bool)
    ensures
        r == styles(sx@),
{
    match sx.as_assign() {
        Some((target, _, _)) => prop_is(target, "cssText"),
        None => false,
    }
}

fn does_attach(sx: &Sx) -> (r: bool)
    ensures
        r == attaches(sx@),
{
    match sx.as_call() {
        Some((callee, _)) => prop_is(callee, "appendChild"),
        None => false,
    }
}

fn probe_ctx<'a>(
    body: Option<&Vec<Sx>>,
    attrs: &'a [(String, String)],
    globals: &'a [String],
) -> (r: ProbeCtx<'a>)
    ensures
        r@ == (CtxV {
            attached_styled: attaches_styled(opt_body(body)),
            attrs: pair_texts(attrs@),
            globals: texts(globals@),
        }),
{
    let mut styled: bool = false;
    let mut attached: bool = false;
    if let Some(b) = body {
        let v = harvest(b);
        let ghost all = nodes_of(models(b@));
        let mut i: usize = 0;
        while i < v.len()
            invariant
                i <= v@.len(),
                all == nodes_of(models(b@)),
                seen(v@) == all,
                styled == exists|j: int| 0 <= j < i && styles(#[trigger] all[j]),
                attached == exists|j: int| 0 <= j < i && attaches(#[trigger] all[j]),
            decreases v@.len() - i,
        {
            assert(all[i as int] == v@[i as int].model());
            if does_style(v[i]) {
                styled = true;
            }
            if does_attach(v[i]) {
                attached = true;
            }
            i += 1;
        }
        assert(all.len() == v@.len());
    }
    ProbeCtx { attached_styled: styled && attached, verify_attrs: attrs, verify_globals: globals }
}

fn sum_probe<F: FloatOps>(
    base: u64,
    checks: &Vec<&Sx>,
    body: Option<&Vec<Sx>>,
    attrs: &[(String, String)],
    globals: &[String],
    fl: &F,
) -> (p: Probe)
    requires
        fl.ok(),
    ensures
        p@ == fl.model().summed(
            base,
            seen(checks@),
            opt_body(body),
            CtxV { attached_styled: false, attrs: pair_texts(attrs@), globals: texts(globals@) },
        ),
{
    let ctx = probe_ctx(body, attrs, globals);
    let ghost all = seen(checks@);
    let mut reads: Vec<Read> = Vec::new();
    let mut sum: u64 = base;
    let mut open: bool = false;
    let mut i: usize = 0;
    assert(read_views(reads@) =~= seq![]);
    while i < checks.len()
        invariant
            fl.ok(),
            i <= checks@.len(),
            all == seen(checks@),
            (Tally { reads: read_views(reads@), sum, open }) == fl.model().tally(
                all,
                i as int,
                base,
                ctx@,
            ),
        decreases checks@.len() - i,
    {
        let c = checks[i];
        let ghost before = read_views(reads@);
        assert(all[i as int] == c@);
        if has_member(c, "navigator", "userAgent") {
            open = true;
            reads.push(Read::NavUa);
            assert(read_views(reads@) =~= before.push(ReadV::NavUa));
        } else {
            match check_value(c, ctx, fl) {
                CheckVal::True => {
                    sum = fl.compute(ArithOp::Add, sum, ONE);
                },
                CheckVal::False => {},
                CheckVal::Unknown => {
                    open = true;
                    reads.push(Read::Env { desc: render_sx(c, fl) });
                    assert(read_views(reads@) =~= before.push(
                        ReadV::Env { desc: fl.model().code(c@, 0) },
                    ));
                },
            }
        }
        i += 1;
    }
    Probe { reads, base: Some(base), value: if open { None } else { Some(sum) } }
}

/// `x.reduce(..., base)` or `x.map(...).reduce(..., base)`: the base and `x`.
pub open spec fn reduction(sx: SxV) -> Option<(u64, SxV)> {
    match sx {
        SxV::Call { callee, args } => match *callee {
            SxV::Member { obj, prop } => if prop == "reduce"@ && args.len() == 2 && args[1] is Num {
                match *obj {
                    SxV::Call { callee: mc, .. } => match *mc {
                        SxV::Member { obj: inner, prop: mp } => if mp == "map"@ {
                            Some((args[1]->Num_0, *inner))
                        } else {
                            None
                        },
                        _ => None,
                    },
                    _ => Some((args[1]->Num_0, *obj)),
                }
            } else {
                None
            },
            _ => None,
        },
        _ => None,
    }
}

fn reduction_of<'a>(sx: &'a Sx) -> (r: Option<(u64, &'a Sx)>)
    ensures
        match reduction(sx@) {
            Some(p) => r matches Some(q) && q.0 == p.0 && q.1@ == p.1,
            None => r is None,
        },
{
    let (callee, args) = match sx.as_call() {
        Some(p) => p,
        None => return None,
    };
    let (obj, prop) = match callee.as_member() {
        Some(p) => p,
        None => return None,
    };
    if !str_eq(prop, "reduce") || args.len() != 2 {
        return None;
    }
    assert(models(args@)[1] == args@[1].model());
    let base: u64 = match args[1].as_num() {
        Some(n) => n,
        None => return None,
    };
    match obj.as_call() {
        Some((mc, _)) => match mc.as_member() {
            Some((inner, mp)) => if str_eq(mp, "map") {
                Some((base, inner))
            } else {
                None
            },
            None => None,
        },
        None => Some((base, obj)),
    }
}

/// The first variable named `name`, from place `i` on, that holds an array.
pub open spec fn array_var(v: Seq<SxV>, i: int, name: Seq<char>) -> Option<Seq<SxV>>
    decreases v.len() - i,
{
    if i < 0 || i >= v.len() {
        None
    } else {
        match v[i] {
            SxV::Var { name: n, value } => if n == name && *value is Arr {
                Some(value->Arr_0)
            } else {
                array_var(v, i + 1, name)
            },
            _ => array_var(v, i + 1, name),
        }
    }
}

/// `name.push(x, ...)`: `x`.
pub open spec fn pushed_to(sx: SxV, name: Seq<char>) -> Option<SxV> {
    match sx {
        SxV::Call { callee, args } => if is_member(*callee, name, "push"@) && args.len() > 0 {
            Some(args[0])
        } else {
            None
        },
        _ => None,
    }
}

/// What the first `n` nodes push to `name`.
pub open spec fn pushes(v: Seq<SxV>, n: int, name: Seq<char>) -> Seq<SxV>
    decreases n,
{
    if n <= 0 || n > v.len() {
        seq![]
    } else {
        match pushed_to(v[n - 1], name) {
            Some(x) => pushes(v, n - 1, name).push(x),
            None => pushes(v, n - 1, name),
        }
    }
}

/// The checks of a reduction over a variable of the body: the array it is
/// declared with, or what is pushed to it where that is empty.
pub open spec fn named_checks(inner: SxV, body: Option<Seq<SxV>>) -> Option<(u64, Seq<SxV>)> {
    match (body, reduction(inner)) {
        (Some(b), Some((base, x))) => match x {
            SxV::Ref(name) => match array_var(nodes_of(b), 0, name) {
                Some(arr) => if arr.len() > 0 {
                    Some((base, arr))
                } else {
                    let p = pushes(nodes_of(b), nodes_of(b).len() as int, name);
                    if p.len() > 0 { Some((base, p)) } else { None }
                },
                None => None,
            },
            _ => None,
        },
        _ => None,
    }
}

/// The checks of a reduction over an array literal.
pub open spec fn literal_checks(inner: SxV) -> Option<(u64, Seq<SxV>)> {
    match reduction(inner) {
        Some((base, x)) => match x {
            SxV::Arr(v) => Some((base, v)),
            _ => None,
        },
        None => None,
    }
}

/// `r` holds the base and the checks of `p`, and both are there or neither is.
pub open spec fn same_checks(r: Option<(u64, Vec<&Sx>)>, p: Option<(u64, Seq<SxV>)>) -> bool {
    match p {
        Some(x) => r matches Some(y) && y.0 == x.0 && seen(y.1@) == x.1,
        None => r is None,
    }
}

fn all_refs<'a>(v: &'a Vec<Sx>) -> (r: Vec<&'a Sx>)
    ensures
        seen(r@) == models(v@),
{
    let mut r: Vec<&Sx> = Vec::new();
    let mut i: usize = 0;
    while i < v.len()
        invariant
            i <= v@.len(),
            r@.len() == i,
            forall|j: int| 0 <= j < i ==> r@[j].model() == (#[trigger] v@[j]).model(),
        decreases v@.len() - i,
    {
        r.push(&v[i]);
        i += 1;
    }
    assert(seen(r@) =~= models(v@));
    r
}

fn find_array_var<'a>(v: &Vec<&'a Sx>, name: &str) -> (r: Option<&'a Vec<Sx>>)
    ensures
        match array_var(seen(v@), 0, name@) {
            Some(s) => r matches Some(t) && models(t@) == s && t@.len() == s.len(),
            None => r is None,
        },
{
    let mut i: usize = 0;
    while i < v.len()
        invariant
            i <= v@.len(),
            array_var(seen(v@), 0, name@) == array_var(seen(v@), i as int, name@),
        decreases v@.len() - i,
    {
        assert(seen(v@)[i as int] == v@[i as int].model());
        if let Some((n, value)) = v[i].as_var() {
            if let Some(a) = value.as_arr() {
                if str_eq(n, name) {
                    return Some(a);
                }
            }
        }
        i += 1;
    }
    None
}

fn pushed_by<'a>(sx: &'a Sx, name: &str) -> (r: Option<&'a Sx>)
    ensures
        match pushed_to(sx@, name@) {
            Some(x) => r matches Some(y) && y@ == x,
            None => r is None,
        },
{
    match sx.as_call() {
        Some((callee, args)) => if member_is(callee, name, "push") {
            Sx::first(args)
        } else {
            None
        },
        None => None,
    }
}

fn resolve_reduce<'a>(inner: &'a Sx, body: Option<&'a Vec<Sx>>) -> (r: Option<(u64, Vec<&'a Sx>)>)
    ensures
        same_checks(r, named_checks(inner@, opt_body(body))),
{
    let b = match body {
        Some(b) => b,
        None => return None,
    };
    let (base, x) = match reduction_of(inner) {
        Some(p) => p,
        None => return None,
    };
    let name = match x.as_name() {
        Some(n) => n,
        None => return None,
    };
    let v = harvest(b);
    let ghost all = nodes_of(models(b@));
    let arr = match find_array_var(&v, name) {
        Some(a) => a,
        None => return None,
    };
    if arr.len() > 0 {
        return Some((base, all_refs(arr)));
    }
    let mut pushed: Vec<&Sx> = Vec::new();
    let mut i: usize = 0;
    assert(seen(pushed@) =~= seq![]);
    while i < v.len()
        invariant
            i <= v@.len(),
            seen(v@) == all,
            seen(pushed@) == pushes(all, i as int, name@),
        decreases v@.len() - i,
    {
        let ghost before = seen(pushed@);
        assert(all[i as int] == v@[i as int].model());
        if let Some(x) = pushed_by(v[i], name) {
            pushed.push(x);
            assert(seen(pushed@) =~= before.push(x@));
        }
        i += 1;
    }
    assert(all.len() == v@.len());
    assert(seen(pushed@).len() == pushed@.len());
    if pushed.len() == 0 {
        return None;
    }
    Some((base, pushed))
}

fn reduce_chain<'a>(sx: &'a Sx) -> (r: Option<(u64, Vec<&'a Sx>)>)
    ensures
        same_checks(r, literal_checks(sx@)),
{
    match reduction_of(sx) {
        Some((base, x)) => match x.as_arr() {
            Some(v) => Some((base, all_refs(v))),
            None => None,
        },
        None => None,
    }
}

// ------------------------------------------------------------------ classification

/// The call that decides a probe, and the body it stands in: for a function
/// literal called without arguments what it returns, otherwise the probe itself.
pub open spec fn deciding(sx: SxV) -> Option<(SxV, Option<Seq<SxV>>)> {
    match sx {
        SxV::Call { callee, args } => if args.len() == 0 && *callee is Fn {
            match main_return((*callee)->Fn_body) {
                Some(x) => Some((x, Some((*callee)->Fn_body))),
                None => None,
            }
        } else {
            Some((sx, None))
        },
        _ => Some((sx, None)),
    }
}

/// `String(x)`: `x`.
pub open spec fn to_string_arg(sx: SxV) -> Option<SxV> {
    match sx {
        SxV::Call { callee, args } => if args.len() == 1 && is_ref(*callee, "String"@) {
            Some(args[0])
        } else {
            None
        },
        _ => None,
    }
}

impl FloatsV {
    /// The probe that an expression makes, where its form is a known one.
    pub open spec fn classified(&self, sx: SxV, facts: CtxV) -> Option<ProbeV> {
        match deciding(sx) {
            Some((call, body)) => match to_string_arg(call) {
                Some(inner) => match self.metric(inner, body) {
                    Some(p) => Some(p),
                    None => match named_checks(inner, body) {
                        Some((base, checks)) => Some(self.summed(base, checks, body, facts)),
                        None => match literal_checks(inner) {
                            Some((base, checks)) => Some(self.summed(base, checks, body, facts)),
                            None => None,
                        },
                    },
                },
                None => None,
            },
            None => None,
        }
    }
}

fn deciding_call<'a>(sx: &'a Sx) -> (r: Option<(&'a Sx, Option<&'a Vec<Sx>>)>)
    ensures
        match deciding(sx@) {
            Some(p) => r matches Some(q) && q.0@ == p.0 && opt_body(q.1) == p.1,
            None => r is None,
        },
{
    if let Some((callee, args)) = sx.as_call() {
        if let (true, Some(body)) = (args.len() == 0, callee.as_fn()) {
            return match find_return_string(body) {
                Some(x) => Some((x, Some(body))),
                None => None,
            };
        }
    }
    Some((sx, None))
}

fn classify_probe<F: FloatOps>(
    sx: &Sx,
    attrs: &[(String, String)],
    globals: &[String],
    fl: &F,
) -> (r: Option<Probe>)
    requires
        fl.ok(),
    ensures
        same_probe(
            r,
            fl.model().classified(
                sx@,
                CtxV { attached_styled: false, attrs: pair_texts(attrs@), globals: texts(globals@) },
            ),
        ),
{
    let (call, body) = match deciding_call(sx) {
        Some(p) => p,
        None => return None,
    };
    let (callee, args) = match call.as_call() {
        Some(p) => p,
        None => return None,
    };
    if args.len() != 1 || !ref_is(callee, "String") {
        return None;
    }
    assert(models(args@)[0] == args@[0].model());
    let inner = &args[0];
    if let Some(p) = metric_probe(inner, body, fl) {
        return Some(p);
    }
    match resolve_reduce(inner, body) {
        Some((base, checks)) => Some(sum_probe(base, &checks, body, attrs, globals, fl)),
        None => match reduce_chain(inner) {
            Some((base, checks)) => Some(sum_probe(base, &checks, body, attrs, globals, fl)),
            None => None,
        },
    }
}

/// `Promise.all([...])`: the items.
pub open spec fn probe_list(sx: SxV) -> Option<Seq<SxV>> {
    match sx {
        SxV::Call { callee, args } => if is_member(*callee, "Promise"@, "all"@) && args.len() > 0
            && args[0] is Arr {
            Some(args[0]->Arr_0)
        } else {
            None
        },
        _ => None,
    }
}

/// The first list of probes among the nodes from place `i` on.
pub open spec fn first_list(v: Seq<SxV>, i: int) -> Option<Seq<SxV>>
    decreases v.len() - i,
{
    if i < 0 || i >= v.len() {
        None
    } else {
        match probe_list(v[i]) {
            Some(items) => Some(items),
            None => first_list(v, i + 1),
        }
    }
}

impl FloatsV {
    /// The probe that an item of the list makes: one of unknown form is described
    /// by its text.
    pub open spec fn probe(&self, item: SxV, facts: CtxV) -> ProbeV {
        match self.classified(item, facts) {
            Some(p) => p,
            None => ProbeV {
                reads: seq![ReadV::Env { desc: self.code(item, 0) }],
                base: None,
                value: None,
            },
        }
    }

    /// The probes of the first `n` items, and whether the user agent stands before
    /// all of them.
    pub open spec fn probes(&self, items: Seq<SxV>, n: int, facts: CtxV) -> (bool, Seq<ProbeV>)
        decreases n,
    {
        if n <= 0 || n > items.len() {
            (false, seq![])
        } else {
            let (first, so_far) = self.probes(items, n - 1, facts);
            if is_member(items[n - 1], "navigator"@, "userAgent"@) {
                (first || so_far.len() == 0, so_far)
            } else {
                (first, so_far.push(self.probe(items[n - 1], facts)))
            }
        }
    }

    /// The probes of a folded program.
    pub open spec fn probes_of(&self, body: Seq<SxV>, facts: CtxV) -> Option<(bool, Seq<ProbeV>)> {
        match first_list(nodes_of(body), 0) {
            Some(items) => Some(self.probes(items, items.len() as int, facts)),
            None => None,
        }
    }
}

fn list_of<'a>(sx: &'a Sx) -> (r: Option<&'a Vec<Sx>>)
    ensures
        match probe_list(sx@) {
            Some(v) => r matches Some(w) && models(w@) == v && w@.len() == v.len(),
            None => r is None,
        },
{
    if let Some((callee, args)) = sx.as_call() {
        if member_is(callee, "Promise", "all") {
            if let Some(x) = Sx::first(args) {
                return x.as_arr();
            }
        }
    }
    None
}

fn find_list<'a>(body: &'a Vec<Sx>) -> (r: Option<&'a Vec<Sx>>)
    ensures
        match first_list(nodes_of(models(body@)), 0) {
            Some(v) => r matches Some(w) && models(w@) == v && w@.len() == v.len(),
            None => r is None,
        },
{
    let v = harvest(body);
    let ghost all = nodes_of(models(body@));
    let mut i: usize = 0;
    while i < v.len()
        invariant
            i <= v@.len(),
            all == nodes_of(models(body@)),
            seen(v@) == all,
            first_list(all, 0) == first_list(all, i as int),
        decreases v@.len() - i,
    {
        assert(all[i as int] == v@[i as int].model());
        if let Some(items) = list_of(v[i]) {
            return Some(items);
        }
        i += 1;
    }
    assert(all.len() == v@.len());
    None
}

/// The probes of a folded program, and whether the user agent stands before all
/// of them; `None` where there is no list of probes.
pub fn extract_probes<F: FloatOps>(
    body: &Vec<Sx>,
    attrs: &[(String, String)],
    globals: &[String],
    fl: &F,
) -> (r: Option<(bool, Vec<Probe>)>)
    requires
        fl.ok(),
    ensures
        match fl.model().probes_of(
            models(body@),
            CtxV { attached_styled: false, attrs: pair_texts(attrs@), globals: texts(globals@) },
        ) {
            Some(p) => r matches Some(q) && q.0 == p.0 && probe_views(q.1@) == p.1,
            None => r is None,
        },
{
    let items = match find_list(body) {
        Some(v) => v,
        None => return None,
    };
    let ghost facts = CtxV {
        attached_styled: false,
        attrs: pair_texts(attrs@),
        globals: texts(globals@),
    };
    let ghost m = models(items@);
    let mut ua_first: bool = false;
    let mut probes: Vec<Probe> = Vec::new();
    let mut i: usize = 0;
    assert(probe_views(probes@) =~= seq![]);
    while i < items.len()
        invariant
            fl.ok(),
            i <= items@.len(),
            m == models(items@),
            m.len() == items@.len(),
            facts == (CtxV {
                attached_styled: false,
                attrs: pair_texts(attrs@),
                globals: texts(globals@),
            }),
            (ua_first, probe_views(probes@)) == fl.model().probes(m, i as int, facts),
        decreases items@.len() - i,
    {
        let it = &items[i];
        let ghost before = probe_views(probes@);
        assert(m[i as int] == it@);
        assert(before.len() == probes@.len());
        if member_is(it, "navigator", "userAgent") {
            if probes.len() == 0 {
                ua_first = true;
            }
        } else {
            let p = match classify_probe(it, attrs, globals, fl) {
                Some(p) => p,
                None => {
                    let mut reads: Vec<Read> = Vec::new();
                    reads.push(Read::Env { desc: render_sx(it, fl) });
                    let p = Probe { reads, base: None, value: None };
                    assert(p@.reads =~= fl.model().probe(it@, facts).reads);
                    p
                },
            };
            probes.push(p);
            assert(probe_views(probes@) =~= before.push(p@));
        }
        i += 1;
    }
    Some((ua_first, probes))
}

} // verus!
