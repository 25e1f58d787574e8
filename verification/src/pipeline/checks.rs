//! What a check of a probe evaluates to, read off its form.
use vstd::prelude::*;

use crate::floats::{FloatOps, FloatsV};
use crate::jsnum::{is_zero, zero};
use crate::pipeline::fold::{truth, truthy};
use crate::pipeline::render::render_sx;
use crate::pipeline::sx::{nodes, nodes_all, nodes_in, seen, texts, Sx, SxV};
use crate::text::str_eq;

verus! {

/// The outcome of a check.
#[derive(Clone, Copy, PartialEq, Eq, Structural, Debug)]
pub enum CheckVal {
    True,
    False,
    Unknown,
}

/// What a probe's surroundings tell: whether it attaches a styled element, and
/// the attribute values and global names that the page's own script sets.
#[derive(Clone, Copy)]
pub struct ProbeCtx<'a> {
    pub attached_styled: bool,
    pub verify_attrs: &'a [(String, String)],
    pub verify_globals: &'a [String],
}

/// A [`ProbeCtx`] as a mathematical value.
pub struct CtxV {
    pub attached_styled: bool,
    pub attrs: Seq<(Seq<char>, Seq<char>)>,
    pub globals: Seq<Seq<char>>,
}

/// The texts of a list of pairs.
pub open spec fn pair_texts(v: Seq<(String, String)>) -> Seq<(Seq<char>, Seq<char>)> {
    Seq::new(v.len(), |i: int| (v[i].0@, v[i].1@))
}

impl<'a> View for ProbeCtx<'a> {
    type V = CtxV;

    open spec fn view(&self) -> CtxV {
        CtxV {
            attached_styled: self.attached_styled,
            attrs: pair_texts(self.verify_attrs@),
            globals: texts(self.verify_globals@),
        }
    }
}

/// `name`, as a plain reference.
pub open spec fn is_ref(sx: SxV, name: Seq<char>) -> bool {
    sx matches SxV::Ref(r) && r == name
}

/// Whether `sx` is the name `name`.
pub fn ref_is(sx: &Sx, name: &str) -> (r: bool)
    ensures
        r == is_ref(sx@, name@),
{
    match sx {
        Sx::Ref(s) => str_eq(s.as_str(), name),
        _ => false,
    }
}

/// `....prop`.
pub open spec fn is_prop(sx: SxV, prop: Seq<char>) -> bool {
    sx matches SxV::Member { prop: p, .. } && p == prop
}

/// Whether `sx` reads the property `prop`.
pub fn prop_is(sx: &Sx, prop: &str) -> (r: bool)
    ensures
        r == is_prop(sx@, prop@),
{
    match sx {
        Sx::Member { prop: p, .. } => str_eq(p.as_str(), prop),
        _ => false,
    }
}

/// `root.prop`.
pub open spec fn is_member(sx: SxV, root: Seq<char>, prop: Seq<char>) -> bool {
    sx matches SxV::Member { obj, prop: p } && p == prop && is_ref(*obj, root)
}

/// Whether `sx` is `root.prop`.
pub fn member_is(sx: &Sx, root: &str, prop: &str) -> (r: bool)
    ensures
        r == is_member(sx@, root@, prop@),
{
    match sx {
        Sx::Member { obj, prop: p } => str_eq(p.as_str(), prop) && ref_is(obj, root),
        _ => false,
    }
}

/// `....name(...)` or `name(...)`.
pub open spec fn is_call(sx: SxV, name: Seq<char>) -> bool {
    sx matches SxV::Call { callee, .. } && (is_prop(*callee, name) || is_ref(*callee, name))
}

/// Whether `sx` calls `name`.
pub fn call_is(sx: &Sx, name: &str) -> (r: bool)
    ensures
        r == is_call(sx@, name@),
{
    match sx {
        Sx::Call { callee, .. } => prop_is(callee, name) || ref_is(callee, name),
        _ => false,
    }
}

/// The string `s`.
pub open spec fn is_text(sx: SxV, s: Seq<char>) -> bool {
    sx matches SxV::Str(t) && t == s
}

/// Whether `sx` is the string `s`.
pub fn text_is(sx: &Sx, s: &str) -> (r: bool)
    ensures
        r == is_text(sx@, s@),
{
    match sx {
        Sx::Str(t) => str_eq(t.as_str(), s),
        _ => false,
    }
}

/// Somewhere in `sx` stands `....prop`.
pub open spec fn with_prop(sx: SxV, prop: Seq<char>) -> bool {
    exists|i: int| 0 <= i < nodes(sx).len() && is_prop(#[trigger] nodes(sx)[i], prop)
}

/// Whether somewhere in `sx` stands `....prop`.
pub fn has_prop(sx: &Sx, prop: &str) -> (r: bool)
    ensures
        r == with_prop(sx@, prop@),
{
    let v = nodes_in(sx);
    let mut i: usize = 0;
    while i < v.len()
        invariant
            i <= v@.len(),
            seen(v@) == nodes(sx@),
            forall|j: int| 0 <= j < i ==> !is_prop(#[trigger] nodes(sx@)[j], prop@),
        decreases v@.len() - i,
    {
        assert(nodes(sx@)[i as int] == v@[i as int].model());
        if prop_is(v[i], prop) {
            return true;
        }
        i += 1;
    }
    assert(nodes(sx@).len() == v@.len());
    false
}

/// Somewhere in `sx` stands `root.prop`.
pub open spec fn with_member(sx: SxV, root: Seq<char>, prop: Seq<char>) -> bool {
    exists|i: int| 0 <= i < nodes(sx).len() && is_member(#[trigger] nodes(sx)[i], root, prop)
}

/// Whether somewhere in `sx` stands `root.prop`.
pub fn has_member(sx: &Sx, root: &str, prop: &str) -> (r: bool)
    ensures
        r == with_member(sx@, root@, prop@),
{
    let v = nodes_in(sx);
    let mut i: usize = 0;
    while i < v.len()
        invariant
            i <= v@.len(),
            seen(v@) == nodes(sx@),
            forall|j: int| 0 <= j < i ==> !is_member(#[trigger] nodes(sx@)[j], root@, prop@),
        decreases v@.len() - i,
    {
        assert(nodes(sx@)[i as int] == v@[i as int].model());
        if member_is(v[i], root, prop) {
            return true;
        }
        i += 1;
    }
    assert(nodes(sx@).len() == v@.len());
    false
}

/// Somewhere in `sx` stands a call of `name`.
pub open spec fn with_call(sx: SxV, name: Seq<char>) -> bool {
    exists|i: int| 0 <= i < nodes(sx).len() && is_call(#[trigger] nodes(sx)[i], name)
}

/// Whether somewhere in `sx` stands a call of `name`.
pub fn has_call(sx: &Sx, name: &str) -> (r: bool)
    ensures
        r == with_call(sx@, name@),
{
    let v = nodes_in(sx);
    let mut i: usize = 0;
    while i < v.len()
        invariant
            i <= v@.len(),
            seen(v@) == nodes(sx@),
            forall|j: int| 0 <= j < i ==> !is_call(#[trigger] nodes(sx@)[j], name@),
        decreases v@.len() - i,
    {
        assert(nodes(sx@)[i as int] == v@[i as int].model());
        if call_is(v[i], name) {
            return true;
        }
        i += 1;
    }
    assert(nodes(sx@).len() == v@.len());
    false
}

/// Somewhere in `sx` stands the string `needle`.
pub open spec fn with_str(sx: SxV, needle: Seq<char>) -> bool {
    exists|i: int| 0 <= i < nodes(sx).len() && is_text(#[trigger] nodes(sx)[i], needle)
}

/// Whether somewhere in `sx` stands the string `needle`.
pub fn has_str(sx: &Sx, needle: &str) -> (r: bool)
    ensures
        r == with_str(sx@, needle@),
{
    let v = nodes_in(sx);
    let mut i: usize = 0;
    while i < v.len()
        invariant
            i <= v@.len(),
            seen(v@) == nodes(sx@),
            forall|j: int| 0 <= j < i ==> !is_text(#[trigger] nodes(sx@)[j], needle@),
        decreases v@.len() - i,
    {
        assert(nodes(sx@)[i as int] == v@[i as int].model());
        if text_is(v[i], needle) {
            return true;
        }
        i += 1;
    }
    assert(nodes(sx@).len() == v@.len());
    false
}

/// `e === e + k` with a number `k` that is not zero; `e` is compared as it is
/// written.
pub open spec fn self_plus_k(fl: FloatsV, sx: SxV) -> bool {
    &&& sx matches SxV::Bin { op, l, r }
    &&& op == "==="@
    &&& *r matches SxV::Bin { op: plus, l: a, r: b }
    &&& plus == "+"@
    &&& *b matches SxV::Num(n)
    &&& !is_zero(n)
    &&& fl.code(*a, 0) == fl.code(*l, 0)
}

fn is_self_plus_k<F: FloatOps>(sx: &Sx, fl: &F) -> (r: bool)
    requires
        fl.ok(),
    ensures
        r == self_plus_k(fl.model(), sx@),
{
    if let Some((op, l, r)) = sx.as_bin() {
        if let Some((plus, a, b)) = r.as_bin() {
            if let Some(n) = b.as_num() {
                return str_eq(op, "===") && str_eq(plus, "+") && !zero(n) && str_eq(
                    render_sx(a, fl).as_str(),
                    render_sx(l, fl).as_str(),
                );
            }
        }
    }
    false
}

/// `a` asks for an attribute and `b` is the string it is compared with: the
/// attribute's name and that string.
pub open spec fn attr_claim(a: SxV, b: SxV) -> Option<(Seq<char>, Seq<char>)> {
    match (a, b) {
        (SxV::Call { callee, args }, SxV::Str(expected)) => if is_prop(*callee, "getAttribute"@)
            && args.len() > 0 && args[0] is Str {
            Some((args[0]->Str_0, expected))
        } else {
            None
        },
        _ => None,
    }
}

fn attr_of<'a>(a: &'a Sx, b: &'a Sx) -> (r: Option<(&'a str, &'a str)>)
    ensures
        match attr_claim(a@, b@) {
            Some(p) => r matches Some(q) && q.0@ == p.0 && q.1@ == p.1,
            None => r is None,
        },
{
    if let (Some((callee, args)), Some(expected)) = (a.as_call(), b.as_text()) {
        if let (true, Some(x)) = (prop_is(callee, "getAttribute"), Sx::first(args)) {
            if let Some(attr) = x.as_text() {
                return Some((attr, expected));
            }
        }
    }
    None
}

/// The pair of strings that an equality claims of an attribute.
pub open spec fn claimed_attr(c: SxV) -> Option<(Seq<char>, Seq<char>)> {
    match c {
        SxV::Bin { op, l, r } => if op == "==="@ {
            match attr_claim(*l, *r) {
                Some(p) => Some(p),
                None => attr_claim(*r, *l),
            }
        } else {
            None
        },
        _ => None,
    }
}

/// The name that `....hasOwnProperty("name")` asks for.
pub open spec fn claimed_global(c: SxV) -> Option<Seq<char>> {
    match c {
        SxV::Call { callee, args } => if is_prop(*callee, "hasOwnProperty"@) && args.len() > 0
            && args[0] is Str {
            Some(args[0]->Str_0)
        } else {
            None
        },
        _ => None,
    }
}

/// A function literal called without arguments.
pub open spec fn bare_call(sx: SxV) -> bool {
    sx matches SxV::Call { callee, args } && args.len() == 0 && *callee is Fn
}

fn is_bare_call(sx: &Sx) -> (r: bool)
    ensures
        r == bare_call(sx@),
{
    match sx.as_call() {
        Some((callee, args)) => args.len() == 0 && callee.as_fn().is_some(),
        None => false,
    }
}

/// `f() === window` with a function literal `f`, either way round.
pub open spec fn plain_this(c: SxV) -> bool {
    c matches SxV::Bin { op, l, r } && op == "==="@ && ((bare_call(*l) && is_ref(*r, "window"@)) || (
    is_ref(*l, "window"@) && bare_call(*r)))
}

/// A truth value as the outcome of a check.
pub open spec fn outcome(b: bool) -> CheckVal {
    if b { CheckVal::True } else { CheckVal::False }
}

fn outcome_of(b: bool) -> (r: CheckVal)
    ensures
        r == outcome(b),
{
    if b { CheckVal::True } else { CheckVal::False }
}

/// The outcome of a check, where its form decides.
pub open spec fn verdict(fl: FloatsV, c: SxV, ctx: CtxV) -> CheckVal {
    if truth(c) is Some {
        outcome(truth(c)->0)
    } else if self_plus_k(fl, c) {
        CheckVal::False
    } else if with_member(c, "navigator"@, "webdriver"@) {
        CheckVal::False
    } else if with_call(c, "isSealed"@) {
        CheckVal::False
    } else if with_prop(c, "contentWindow"@) && with_prop(c, "srcdoc"@) {
        CheckVal::False
    } else if with_call(c, "endsWith"@) && with_member(c, "window"@, "top"@) {
        CheckVal::False
    } else if with_call(c, "getComputedStyle"@) && with_call(c, "getPropertyValue"@) {
        CheckVal::True
    } else if with_prop(c, "offsetWidth"@) || with_prop(c, "offsetHeight"@) || with_call(
        c,
        "getBoundingClientRect"@,
    ) || with_prop(c, "scrollHeight"@) {
        outcome(ctx.attached_styled)
    } else if with_str(c, "[native code]"@) && with_call(c, "includes"@) {
        CheckVal::True
    } else if with_str(c, "[object Window]"@) {
        CheckVal::True
    } else if with_str(c, "NodeList"@) {
        CheckVal::True
    } else if (c matches SxV::Un { op, .. } && op == "!"@) && with_call(c, "isArray"@) && with_call(
        c,
        "querySelectorAll"@,
    ) {
        CheckVal::True
    } else if with_prop(c, "captureStackTrace"@) {
        CheckVal::True
    } else if c matches SxV::Bin { op, .. } && op == "instanceof"@ {
        CheckVal::True
    } else if claimed_attr(c) is Some {
        outcome(ctx.attrs.contains(claimed_attr(c)->0))
    } else if claimed_global(c) is Some {
        outcome(ctx.globals.contains(claimed_global(c)->0))
    } else if plain_this(c) {
        CheckVal::True
    } else {
        CheckVal::Unknown
    }
}

/// A check that compares an attribute of a variable with a string is decided by the
/// facts alone, exactly: it is true where the facts hold that attribute with that
/// value, and false otherwise. The two strings that stand for themselves are left
/// out.
pub proof fn lemma_attribute_check(
    fl: FloatsV,
    root: Seq<char>,
    attr: Seq<char>,
    value: Seq<char>,
    ctx: CtxV,
)
    requires
        attr != "[object Window]"@ && attr != "NodeList"@,
        value != "[object Window]"@ && value != "NodeList"@,
    ensures
        verdict(fl, attribute_check(root, attr, value), ctx) == outcome(
            ctx.attrs.contains((attr, value)),
        ),
{
    let c = attribute_check(root, attr, value);
    reveal_strlit("getAttribute");
    reveal_strlit("webdriver");
    reveal_strlit("isSealed");
    reveal_strlit("contentWindow");
    reveal_strlit("endsWith");
    reveal_strlit("getComputedStyle");
    reveal_strlit("offsetWidth");
    reveal_strlit("offsetHeight");
    reveal_strlit("getBoundingClientRect");
    reveal_strlit("scrollHeight");
    reveal_strlit("includes");
    reveal_strlit("captureStackTrace");
    reveal_strlit("===");
    reveal_strlit("instanceof");
    assert("offsetHeight"@[0] != "getAttribute"@[0]);
    assert("scrollHeight"@[0] != "getAttribute"@[0]);
    assert("getComputedStyle"@[3] != "getAttribute"@[3]);
    assert("getBoundingClientRect"@[3] != "getAttribute"@[3]);
    lemma_attribute_nodes(root, attr, value);
    assert(!with_member(c, "navigator"@, "webdriver"@));
    assert(!with_call(c, "isSealed"@));
    assert(!with_prop(c, "contentWindow"@));
    assert(!with_call(c, "endsWith"@));
    assert(!with_call(c, "getComputedStyle"@));
    assert(!with_prop(c, "offsetWidth"@));
    assert(!with_prop(c, "offsetHeight"@));
    assert(!with_call(c, "getBoundingClientRect"@));
    assert(!with_prop(c, "scrollHeight"@));
    assert(!with_call(c, "includes"@));
    assert(!with_str(c, "[object Window]"@));
    assert(!with_str(c, "NodeList"@));
    assert(!with_prop(c, "captureStackTrace"@));
    assert("==="@[0] != "instanceof"@[0]);
    assert(truth(c) is None);
    assert(!self_plus_k(fl, c));
    assert(claimed_attr(c) == Some((attr, value)));
}

proof fn lemma_attribute_nodes(root: Seq<char>, attr: Seq<char>, value: Seq<char>)
    ensures
        forall|p: Seq<char>|
            p != "getAttribute"@ ==> !#[trigger] with_prop(attribute_check(root, attr, value), p),
        forall|p: Seq<char>|
            p != "getAttribute"@ ==> !#[trigger] with_call(attribute_check(root, attr, value), p),
        forall|r: Seq<char>, p: Seq<char>|
            p != "getAttribute"@ ==> !#[trigger] with_member(
                attribute_check(root, attr, value),
                r,
                p,
            ),
        forall|s: Seq<char>|
            s != attr && s != value ==> !#[trigger] with_str(
                attribute_check(root, attr, value),
                s,
            ),
{
    let c = attribute_check(root, attr, value);
    let call = *c->Bin_l;
    let member = *call->Call_callee;
    let text = SxV::Str(attr);
    let all = seq![c, call, member, SxV::Ref(root), text, SxV::Str(value)];
    assert(nodes(SxV::Ref(root)) =~= seq![SxV::Ref(root)]);
    assert(nodes(text) =~= seq![text]);
    assert(nodes(SxV::Str(value)) =~= seq![SxV::Str(value)]);
    assert(nodes(member) =~= seq![member, SxV::Ref(root)]);
    assert(nodes_all(seq![text], 0) =~= seq![]);
    assert(nodes_all(seq![text], 1) =~= seq![text]);
    assert(nodes(call) =~= seq![call, member, SxV::Ref(root), text]);
    assert(nodes(c) =~= all);
}

/// `root.getAttribute("attr") === "value"`.
pub open spec fn attribute_check(root: Seq<char>, attr: Seq<char>, value: Seq<char>) -> SxV {
    SxV::Bin {
        op: "==="@,
        l: Box::new(
            SxV::Call {
                callee: Box::new(
                    SxV::Member { obj: Box::new(SxV::Ref(root)), prop: "getAttribute"@ },
                ),
                args: seq![SxV::Str(attr)],
            },
        ),
        r: Box::new(SxV::Str(value)),
    }
}

fn sets_attr(attrs: &[(String, String)], name: &str, value: &str) -> (r: bool)
    ensures
        r == pair_texts(attrs@).contains((name@, value@)),
{
    let mut i: usize = 0;
    while i < attrs.len()
        invariant
            i <= attrs@.len(),
            forall|j: int| 0 <= j < i ==> pair_texts(attrs@)[j] != (name@, value@),
        decreases attrs@.len() - i,
    {
        if str_eq(attrs[i].0.as_str(), name) && str_eq(attrs[i].1.as_str(), value) {
            assert(pair_texts(attrs@)[i as int] == (name@, value@));
            return true;
        }
        i += 1;
    }
    false
}

fn sets_global(globals: &[String], name: &str) -> (r: bool)
    ensures
        r == texts(globals@).contains(name@),
{
    let mut i: usize = 0;
    while i < globals.len()
        invariant
            i <= globals@.len(),
            forall|j: int| 0 <= j < i ==> texts(globals@)[j] != name@,
        decreases globals@.len() - i,
    {
        if str_eq(globals[i].as_str(), name) {
            assert(texts(globals@)[i as int] == name@);
            return true;
        }
        i += 1;
    }
    false
}

fn attr_verdict(c: &Sx, ctx: ProbeCtx<'_>) -> (r: Option<CheckVal>)
    ensures
        r == match claimed_attr(c@) {
            Some(p) => Some(outcome(ctx@.attrs.contains(p))),
            None => None,
        },
{
    if let Sx::Bin { op, l, r } = c {
        if str_eq(op, "===") {
            let claim = match attr_of(l, r) {
                Some(p) => Some(p),
                None => attr_of(r, l),
            };
            if let Some(p) = claim {
                return Some(outcome_of(sets_attr(ctx.verify_attrs, p.0, p.1)));
            }
        }
    }
    None
}

fn global_verdict(c: &Sx, ctx: ProbeCtx<'_>) -> (r: Option<CheckVal>)
    ensures
        r == match claimed_global(c@) {
            Some(g) => Some(outcome(ctx@.globals.contains(g))),
            None => None,
        },
{
    if let Some((callee, args)) = c.as_call() {
        if let (true, Some(x)) = (prop_is(callee, "hasOwnProperty"), Sx::first(args)) {
            if let Some(g) = x.as_text() {
                return Some(outcome_of(sets_global(ctx.verify_globals, g)));
            }
        }
    }
    None
}

fn is_plain_this(c: &Sx) -> (r: bool)
    ensures
        r == plain_this(c@),
{
    match c {
        Sx::Bin { op, l, r } => str_eq(op, "===") && ((is_bare_call(l) && ref_is(r, "window")) || (
        ref_is(l, "window") && is_bare_call(r))),
        _ => false,
    }
}

fn un_is(c: &Sx, name: &str) -> (r: bool)
    ensures
        r == (c@ matches SxV::Un { op, .. } && op == name@),
{
    match c {
        Sx::Un { op, .. } => str_eq(op, name),
        _ => false,
    }
}

fn bin_is(c: &Sx, name: &str) -> (r: bool)
    ensures
        r == (c@ matches SxV::Bin { op, .. } && op == name@),
{
    match c {
        Sx::Bin { op, .. } => str_eq(op, name),
        _ => false,
    }
}

/// The outcome of a check, where its form decides; `Unknown` for any other form.
pub fn check_value<F: FloatOps>(c: &Sx, ctx: ProbeCtx<'_>, fl: &F) -> (r: CheckVal)
    requires
        fl.ok(),
    ensures
        r == verdict(fl.model(), c@, ctx@),
{
    if let Some(b) = truthy(c) {
        return outcome_of(b);
    }
    if is_self_plus_k(c, fl) {
        return CheckVal::False;
    }
    if has_member(c, "navigator", "webdriver") {
        return CheckVal::False;
    }
    if has_call(c, "isSealed") {
        return CheckVal::False;
    }
    if has_prop(c, "contentWindow") && has_prop(c, "srcdoc") {
        return CheckVal::False;
    }
    if has_call(c, "endsWith") && has_member(c, "window", "top") {
        return CheckVal::False;
    }
    if has_call(c, "getComputedStyle") && has_call(c, "getPropertyValue") {
        return CheckVal::True;
    }
    if has_prop(c, "offsetWidth") || has_prop(c, "offsetHeight") || has_call(
        c,
        "getBoundingClientRect",
    ) || has_prop(c, "scrollHeight") {
        return outcome_of(ctx.attached_styled);
    }
    if has_str(c, "[native code]") && has_call(c, "includes") {
        return CheckVal::True;
    }
    if has_str(c, "[object Window]") {
        return CheckVal::True;
    }
    if has_str(c, "NodeList") {
        return CheckVal::True;
    }
    if un_is(c, "!") && has_call(c, "isArray") && has_call(c, "querySelectorAll") {
        return CheckVal::True;
    }
    if has_prop(c, "captureStackTrace") {
        return CheckVal::True;
    }
    if bin_is(c, "instanceof") {
        return CheckVal::True;
    }
    if let Some(v) = attr_verdict(c, ctx) {
        return v;
    }
    if let Some(v) = global_verdict(c, ctx) {
        return v;
    }
    if is_plain_this(c) {
        return CheckVal::True;
    }
    CheckVal::Unknown
}

} // verus!
