//! What the probes of a challenge come to: the forms they have, the numbers they start
//! from and what their checks add.
use vstd::prelude::*;

#[allow(unused_imports)]
use crate::floats::{ArithOp, FloatsV};
#[allow(unused_imports)]
use crate::jsnum::bits_of_nat;
#[allow(unused_imports)]
use crate::laws::checking::{calls, lemma_reads, reads, reads_of};
#[allow(unused_imports)]
use crate::laws::propagating::lemma_one;
#[allow(unused_imports)]
use crate::pipeline::checks::{is_member, verdict, CtxV};
#[allow(unused_imports)]
use crate::pipeline::html::measures;
#[allow(unused_imports)]
use crate::pipeline::probes::{
    addend, array_var, attaches, attaches_styled, char_code, first_html, first_key, first_list,
    first_string_call, html_literal, last_of, key_at, literal_checks, main_return, probe_list,
    pushed_to, pushes, reduction, returned, returned_all, some_attach, some_style, string_call,
    string_var, styles, to_string_arg, ProbeV, ReadV,
};
#[allow(unused_imports)]
use crate::pipeline::sx::{nodes_of, SxV};

verus! {

/// `obj.prop`.
pub open spec fn dot(obj: SxV, prop: Seq<char>) -> SxV {
    SxV::Member { obj: Box::new(obj), prop }
}

/// `f(args)`.
pub open spec fn apply(f: SxV, args: Seq<SxV>) -> SxV {
    SxV::Call { callee: Box::new(f), args }
}

/// `l op r`.
pub open spec fn binary(op: Seq<char>, l: SxV, r: SxV) -> SxV {
    SxV::Bin { op, l: Box::new(l), r: Box::new(r) }
}

// --------------------------------------------------------------------------- the checks

proof fn lemma_tally_prefix(
    fl: FloatsV,
    checks: Seq<SxV>,
    c: SxV,
    n: int,
    base: u64,
    ctx: CtxV,
)
    requires
        0 <= n <= checks.len(),
    ensures
        fl.tally(checks.push(c), n, base, ctx) == fl.tally(checks, n, base, ctx),
    decreases n,
{
    if n > 0 {
        lemma_tally_prefix(fl, checks, c, n - 1, base, ctx);
        assert(checks.push(c)[n - 1] == checks[n - 1]);
    }
}

/// A probe without checks is worth its base.
pub proof fn lemma_no_checks(fl: FloatsV, base: u64, body: Option<Seq<SxV>>, facts: CtxV)
    ensures
        fl.summed(base, seq![], body, facts) == (ProbeV {
            reads: seq![],
            base: Some(base),
            value: Some(base),
        }),
{
}

/// One check more: a true one adds one, a false one nothing; one that reads the user
/// agent, and one that its form does not settle, is noted behind the others and leaves the
/// value open.
pub proof fn lemma_one_check(
    fl: FloatsV,
    base: u64,
    checks: Seq<SxV>,
    c: SxV,
    body: Option<Seq<SxV>>,
    facts: CtxV,
)
    ensures
        ({
            let ctx = CtxV { attached_styled: attaches_styled(body), ..facts };
            let a = fl.summed(base, checks, body, facts);
            let b = fl.summed(base, checks.push(c), body, facts);
            let agent = reads_of(c, "navigator"@, "userAgent"@);
            &&& b.base == Some(base)
            &&& agent ==> b.reads == a.reads.push(ReadV::NavUa) && b.value is None
            &&& !agent && verdict(fl, c, ctx) is Unknown ==> b.reads == a.reads.push(
                ReadV::Env { desc: fl.code(c, 0) },
            ) && b.value is None
            &&& !agent && verdict(fl, c, ctx) is False ==> b.reads == a.reads && b.value == a.value
            &&& !agent && verdict(fl, c, ctx) is True ==> b.reads == a.reads && (a.value is None
                ==> b.value is None) && (a.value matches Some(x) ==> b.value == Some(
                (fl.op)(ArithOp::Add, x, bits_of_nat(1) as u64),
            ))
        }),
{
    let ctx = CtxV { attached_styled: attaches_styled(body), ..facts };
    lemma_reads(c, "navigator"@, "userAgent"@);
    lemma_tally_prefix(fl, checks, c, checks.len() as int, base, ctx);
    assert(checks.push(c)[checks.len() as int] == c);
    lemma_one();
}

/// An element counts as attached and styled where some node of the body sets `cssText` and
/// some node calls `appendChild`.
pub proof fn lemma_styled(b: Seq<SxV>)
    ensures
        attaches_styled(Some(b)) <==> (exists|i: int|
            0 <= i < nodes_of(b).len() && (#[trigger] nodes_of(b)[i]) is Assign && (
            *nodes_of(b)[i]->Assign_target) is Member && (
            *nodes_of(b)[i]->Assign_target)->Member_prop == "cssText"@) && (exists|i: int|
            0 <= i < nodes_of(b).len() && (#[trigger] nodes_of(b)[i]) is Call && (
            *nodes_of(b)[i]->Call_callee) is Member && (*nodes_of(b)[i]->Call_callee)->Member_prop
                == "appendChild"@),
        !attaches_styled(None),
{
    let v = nodes_of(b);
    if some_style(v) {
        let i = choose|i: int| 0 <= i < v.len() && styles(#[trigger] v[i]);
        assert(v[i] is Assign);
    }
    if some_attach(v) {
        let i = choose|i: int| 0 <= i < v.len() && attaches(#[trigger] v[i]);
        assert(v[i] is Call);
    }
    if exists|i: int|
        0 <= i < v.len() && (#[trigger] v[i]) is Assign && (*v[i]->Assign_target) is Member && (
        *v[i]->Assign_target)->Member_prop == "cssText"@ {
        let i = choose|i: int|
            0 <= i < v.len() && (#[trigger] v[i]) is Assign && (*v[i]->Assign_target) is Member && (
            *v[i]->Assign_target)->Member_prop == "cssText"@;
        assert(styles(v[i]));
    }
    if exists|i: int|
        0 <= i < v.len() && (#[trigger] v[i]) is Call && (*v[i]->Call_callee) is Member && (
        *v[i]->Call_callee)->Member_prop == "appendChild"@ {
        let i = choose|i: int|
            0 <= i < v.len() && (#[trigger] v[i]) is Call && (*v[i]->Call_callee) is Member && (
            *v[i]->Call_callee)->Member_prop == "appendChild"@;
        assert(attaches(v[i]));
    }
}

// ---------------------------------------------------------------------- metric probes

/// `x` sets the `innerHTML` of something to the string `html`.
pub open spec fn sets_html(x: SxV, html: Seq<char>) -> bool {
    x is Assign && x->Assign_op == "="@ && (*x->Assign_target) is Member && (
    *x->Assign_target)->Member_prop == "innerHTML"@ && *x->Assign_value == SxV::Str(html)
}

proof fn lemma_first_html(v: Seq<SxV>, i: int, k: int, html: Seq<char>)
    requires
        0 <= i <= k < v.len(),
        sets_html(v[k], html),
        forall|j: int, h: Seq<char>| i <= j < k ==> !(#[trigger] sets_html(v[j], h)),
    ensures
        first_html(v, i) == Some(html),
    decreases k - i,
{
    if i < k {
        if html_literal(v[i]) is Some {
            assert(sets_html(v[i], html_literal(v[i])->0));
        }
        lemma_first_html(v, i + 1, k, html);
    }
}

/// A probe that measures a fragment is worth the number it adds, whichever operand that
/// is, and the length of the first fragment that the body assigns times the number of its
/// elements.
pub proof fn lemma_metric(
    fl: FloatsV,
    base: u64,
    rest: SxV,
    inner: SxV,
    body: Seq<SxV>,
    k: int,
    html: Seq<char>,
)
    requires
        inner == binary("+"@, SxV::Num(base), rest) || inner == binary("+"@, rest, SxV::Num(base))
            && !(rest is Num),
        reads(inner, "innerHTML"@),
        calls(inner, "querySelectorAll"@),
        0 <= k < nodes_of(body).len(),
        sets_html(nodes_of(body)[k], html),
        forall|j: int, h: Seq<char>| 0 <= j < k ==> !(#[trigger] sets_html(nodes_of(body)[j], h)),
        measures(html).0 <= usize::MAX,
        measures(html).1 <= usize::MAX,
        measures(html).0 * measures(html).1 <= usize::MAX,
    ensures
        fl.metric(inner, Some(body)) is Some,
        fl.metric(inner, Some(body))->0.base == Some(base),
        fl.metric(inner, Some(body))->0.reads.len() == 1,
        fl.metric(inner, Some(body))->0.value == Some(
            (fl.op)(
                ArithOp::Add,
                base,
                bits_of_nat((measures(html).0 * measures(html).1) as nat) as u64,
            ),
        ),
{
    lemma_first_html(nodes_of(body), 0, k, html);
    lemma_reads(inner, "innerHTML"@, "innerHTML"@);
    lemma_reads(inner, "querySelectorAll"@, "querySelectorAll"@);
}

/// A probe that does not both read `innerHTML` and call `querySelectorAll` measures
/// nothing, and neither does one outside of a body, or in one that assigns no fragment.
pub proof fn lemma_no_metric(fl: FloatsV, inner: SxV, body: Seq<SxV>)
    ensures
        fl.metric(inner, None) is None,
        !reads(inner, "innerHTML"@) ==> fl.metric(inner, Some(body)) is None,
        !calls(inner, "querySelectorAll"@) ==> fl.metric(inner, Some(body)) is None,
        (forall|j: int, h: Seq<char>|
            0 <= j < nodes_of(body).len() ==> !(#[trigger] sets_html(nodes_of(body)[j], h)))
            ==> fl.metric(inner, Some(body)) is None,
{
    lemma_reads(inner, "innerHTML"@, "innerHTML"@);
    lemma_reads(inner, "querySelectorAll"@, "querySelectorAll"@);
    if forall|j: int, h: Seq<char>|
        0 <= j < nodes_of(body).len() ==> !(#[trigger] sets_html(nodes_of(body)[j], h)) {
        lemma_no_html(nodes_of(body), 0);
    }
}

proof fn lemma_no_html(v: Seq<SxV>, i: int)
    requires
        0 <= i <= v.len(),
        forall|j: int, h: Seq<char>| 0 <= j < v.len() ==> !(#[trigger] sets_html(v[j], h)),
    ensures
        first_html(v, i) is None,
    decreases v.len() - i,
{
    if i < v.len() {
        if html_literal(v[i]) is Some {
            assert(sets_html(v[i], html_literal(v[i])->0));
        }
        lemma_no_html(v, i + 1);
    }
}

/// The number that a sum adds stands at its outermost place; nothing but a sum adds one.
pub proof fn lemma_addend(a: SxV, b: SxV, n: u64, op: Seq<char>)
    ensures
        addend(binary("+"@, SxV::Num(n), b)) == Some(n),
        !(a is Num) ==> addend(binary("+"@, a, SxV::Num(n))) == Some(n),
        !(a is Num) && !(b is Num) && addend(a) is Some ==> addend(binary("+"@, a, b)) == addend(a),
        !(a is Num) && !(b is Num) && addend(a) is None ==> addend(binary("+"@, a, b)) == addend(b),
        op != "+"@ ==> addend(binary(op, a, b)) is None,
        !(a is Bin) ==> addend(a) is None,
{
}

// ------------------------------------------------------------------------- sum probes

/// `String(x)` over checks that stand in an array and are added up from a number is the
/// sum of those checks, with or without a `map` in between.
pub proof fn lemma_literal_sum(
    fl: FloatsV,
    checks: Seq<SxV>,
    f: SxV,
    g: Seq<SxV>,
    base: u64,
    facts: CtxV,
)
    ensures
        ({
            let plain = apply(dot(SxV::Arr(checks), "reduce"@), seq![f, SxV::Num(base)]);
            let mapped = apply(
                dot(apply(dot(SxV::Arr(checks), "map"@), g), "reduce"@),
                seq![f, SxV::Num(base)],
            );
            let text = |x: SxV| apply(SxV::Ref("String"@), seq![x]);
            &&& fl.classified(text(plain), facts) == Some(fl.summed(base, checks, None, facts))
            &&& fl.classified(text(mapped), facts) == Some(fl.summed(base, checks, None, facts))
            &&& fl.classified(plain, facts) is None
            &&& fl.classified(mapped, facts) is None
        }),
{
    let args = seq![f, SxV::Num(base)];
    let plain = apply(dot(SxV::Arr(checks), "reduce"@), args);
    let mapped = apply(dot(apply(dot(SxV::Arr(checks), "map"@), g), "reduce"@), args);
    assert(args.len() == 2 && args[1] == SxV::Num(base));
    assert(reduction(plain) == Some((base, SxV::Arr(checks))));
    assert(reduction(mapped) == Some((base, SxV::Arr(checks))));
    assert(seq![plain][0] == plain && seq![mapped][0] == mapped);
    assert(fl.metric(plain, None) is None);
    assert(fl.metric(mapped, None) is None);
}

/// A function that is called on the spot and returns `String` of a sum over a variable:
/// the checks are what the variable is declared to hold, or, where that is nothing, what
/// is pushed to it.
pub proof fn lemma_named_sum(
    fl: FloatsV,
    body: Seq<SxV>,
    params: Seq<Seq<char>>,
    name: Seq<char>,
    f: SxV,
    base: u64,
    facts: CtxV,
    func: SxV,
)
    requires
        func is Fn,
        func->Fn_body == body,
        main_return(body) == Some(
            apply(
                SxV::Ref("String"@),
                seq![apply(dot(SxV::Ref(name), "reduce"@), seq![f, SxV::Num(base)])],
            ),
        ),
        fl.metric(apply(dot(SxV::Ref(name), "reduce"@), seq![f, SxV::Num(base)]), Some(body)) is None,
    ensures
        ({
            let all = nodes_of(body);
            let p = pushes(all, all.len() as int, name);
            let r = fl.classified(apply(func, seq![]), facts);
            &&& array_var(all, 0, name) is Some && array_var(all, 0, name)->0.len() > 0 ==> r == Some(
                fl.summed(base, array_var(all, 0, name)->0, Some(body), facts),
            )
            &&& array_var(all, 0, name) == Some(Seq::<SxV>::empty()) && p.len() > 0 ==> r == Some(
                fl.summed(base, p, Some(body), facts),
            )
            &&& array_var(all, 0, name) is None ==> r is None
        }),
{
    let args = seq![f, SxV::Num(base)];
    let inner = apply(dot(SxV::Ref(name), "reduce"@), args);
    assert(args.len() == 2 && args[1] == SxV::Num(base));
    assert(reduction(inner) == Some((base, SxV::Ref(name))));
    assert(seq![inner][0] == inner);
    assert(to_string_arg(main_return(body)->0) == Some(inner));
    assert(literal_checks(inner) is None);
}

proof fn lemma_pushes_prefix(v: Seq<SxV>, x: SxV, n: int, name: Seq<char>)
    requires
        0 <= n <= v.len(),
    ensures
        pushes(v.push(x), n, name) == pushes(v, n, name),
    decreases n,
{
    if n > 0 {
        lemma_pushes_prefix(v, x, n - 1, name);
        assert(v.push(x)[n - 1] == v[n - 1]);
    }
}

/// One node more: what is pushed to a variable is noted behind what was pushed before, and
/// nothing else is noted.
pub proof fn lemma_pushed(v: Seq<SxV>, x: SxV, y: SxV, args: Seq<SxV>, name: Seq<char>)
    requires
        args.len() > 0,
        args[0] == y,
    ensures
        pushes(seq![], 0, name) == Seq::<SxV>::empty(),
        x == apply(dot(SxV::Ref(name), "push"@), args) ==> pushes(
            v.push(x),
            v.len() as int + 1,
            name,
        ) == pushes(v, v.len() as int, name).push(y),
        !(x is Call) || !(*x->Call_callee == dot(SxV::Ref(name), "push"@)) || x->Call_args.len() == 0
            ==> pushes(v.push(x), v.len() as int + 1, name) == pushes(v, v.len() as int, name),
{
    lemma_pushes_prefix(v, x, v.len() as int, name);
    assert(v.push(x)[v.len() as int] == x);
    assert(pushed_to(x, name) is Some ==> *x->Call_callee == dot(SxV::Ref(name), "push"@));
}

/// The array of a variable is the one that it is first declared with.
pub proof fn lemma_array(v: Seq<SxV>, i: int, name: Seq<char>)
    requires
        0 <= i <= v.len(),
    ensures
        array_var(v, i, name) matches Some(a) ==> exists|k: int|
            i <= k < v.len() && (#[trigger] v[k]) == (SxV::Var {
                name,
                value: Box::new(SxV::Arr(a)),
            }) && forall|j: int|
                i <= j < k ==> !((#[trigger] v[j]) is Var && v[j]->Var_name == name && (
                *v[j]->Var_value) is Arr),
        array_var(v, i, name) is None ==> forall|j: int|
            i <= j < v.len() ==> !((#[trigger] v[j]) is Var && v[j]->Var_name == name && (
            *v[j]->Var_value) is Arr),
    decreases v.len() - i,
{
    if i < v.len() {
        lemma_array(v, i + 1, name);
        if v[i] is Var && v[i]->Var_name == name && *v[i]->Var_value is Arr {
            assert(v[i] == (SxV::Var {
                name,
                value: Box::new(SxV::Arr((*v[i]->Var_value)->Arr_0)),
            }));
        }
    }
}

// ------------------------------------------------------------------ what is returned

/// What a function returns in the end: of the expressions that it may return the first
/// that is a call of `String`, and the first of all where none is.
pub proof fn lemma_main_return(body: Seq<SxV>)
    ensures
        ({
            let all = returned_all(body, body.len() as int);
            let text = |x: SxV|
                x is Call && *x->Call_callee == SxV::Ref("String"@) && x->Call_args.len() > 0;
            &&& all.len() == 0 ==> main_return(body) is None
            &&& all.len() > 0 ==> exists|k: int|
                0 <= k < all.len() && main_return(body) == Some(#[trigger] all[k]) && (text(all[k])
                    && (forall|j: int| 0 <= j < k ==> !text(#[trigger] all[j])) || k == 0 && (forall|
                    j: int,
                |
                    0 <= j < all.len() ==> !text(#[trigger] all[j])))
        }),
{
    let all = returned_all(body, body.len() as int);
    lemma_first_string(all, 0);
    if all.len() > 0 {
        assert(all[0] == all[0]);
    }
}

proof fn lemma_first_string(v: Seq<SxV>, i: int)
    requires
        0 <= i <= v.len(),
    ensures
        first_string_call(v, i) matches Some(x) ==> exists|k: int|
            i <= k < v.len() && x == #[trigger] v[k] && string_call(v[k]) && forall|j: int|
                i <= j < k ==> !string_call(#[trigger] v[j]),
        first_string_call(v, i) is None ==> forall|j: int|
            i <= j < v.len() ==> !string_call(#[trigger] v[j]),
    decreases v.len() - i,
{
    if i < v.len() {
        if string_call(v[i]) {
            assert(v[i] == v[i]);
        } else {
            lemma_first_string(v, i + 1);
        }
    }
}

proof fn lemma_returned_prefix(v: Seq<SxV>, x: SxV, n: int)
    requires
        0 <= n <= v.len(),
    ensures
        returned_all(v.push(x), n) == returned_all(v, n),
    decreases n,
{
    if n > 0 {
        lemma_returned_prefix(v, x, n - 1);
        assert(v.push(x)[n - 1] == v[n - 1]);
    }
}

/// What statements return, in the order they are written: a `return` its value, a block
/// and a loop what their bodies return, an `if` what its first branch returns and then its
/// second, a `try` what its body, its handler and its last part return; nothing else
/// returns.
pub proof fn lemma_returned(x: SxV, v: Seq<SxV>, w: Seq<SxV>, t: SxV, value: SxV)
    requires
        !(value is Sequence),
    ensures
        returned_all(seq![], 0) == Seq::<SxV>::empty(),
        returned_all(v.push(x), v.len() as int + 1) == returned_all(v, v.len() as int) + returned(x),
        returned(SxV::Ret(Some(Box::new(value)))) == seq![value],
        returned(SxV::Ret(None)) == Seq::<SxV>::empty(),
        returned(SxV::Block(v)) == returned_all(v, v.len() as int),
        returned(SxV::Sequence(v)) == returned_all(v, v.len() as int),
        returned(SxV::If { t: Box::new(t), c: v, a: w }) == returned_all(v, v.len() as int)
            + returned_all(w, w.len() as int),
        returned(SxV::While { t: Box::new(t), body: v }) == returned_all(v, v.len() as int),
        returned(SxV::Try { body: v, handler: None, fin: w }) == returned_all(v, v.len() as int)
            + returned_all(w, w.len() as int),
        x is Call || x is Var || x is Assign || x is Throw || x is Break ==> returned(x) == Seq::<
            SxV,
        >::empty(),
{
    lemma_returned_prefix(v, x, v.len() as int);
    assert(v.push(x)[v.len() as int] == x);
    reveal_with_fuel(returned, 2);
    reveal_with_fuel(crate::pipeline::probes::last_of, 2);
    let r = SxV::Try { body: v, handler: None, fin: w };
    assert(returned(r) =~= returned_all(v, v.len() as int) + returned_all(w, w.len() as int));
}

// -------------------------------------------------------------------- the list of probes

proof fn lemma_probes_prefix(fl: FloatsV, v: Seq<SxV>, x: SxV, n: int, facts: CtxV)
    requires
        0 <= n <= v.len(),
    ensures
        fl.probes(v.push(x), n, facts) == fl.probes(v, n, facts),
    decreases n,
{
    if n > 0 {
        lemma_probes_prefix(fl, v, x, n - 1, facts);
        assert(v.push(x)[n - 1] == v[n - 1]);
    }
}

/// One item more: `navigator.userAgent` is no probe, and stands before all of them where
/// there was none yet; any other item is a probe behind the others.
pub proof fn lemma_one_probe(fl: FloatsV, v: Seq<SxV>, x: SxV, facts: CtxV)
    ensures
        fl.probes(seq![], 0, facts) == (false, Seq::<ProbeV>::empty()),
        ({
            let a = fl.probes(v, v.len() as int, facts);
            let b = fl.probes(v.push(x), v.len() as int + 1, facts);
            &&& x == dot(SxV::Ref("navigator"@), "userAgent"@) ==> b.1 == a.1 && b.0 == (a.0
                || a.1.len() == 0)
            &&& x != dot(SxV::Ref("navigator"@), "userAgent"@) ==> b.0 == a.0 && b.1 == a.1.push(
                fl.probe(x, facts),
            )
        }),
{
    lemma_probes_prefix(fl, v, x, v.len() as int, facts);
    assert(v.push(x)[v.len() as int] == x);
    if x != dot(SxV::Ref("navigator"@), "userAgent"@) {
        if is_member(x, "navigator"@, "userAgent"@) {
            assert(*x->Member_obj == SxV::Ref("navigator"@));
            assert(x == dot(SxV::Ref("navigator"@), "userAgent"@));
        }
    }
}

/// `x` is `Promise.all` of the list `items`.
pub open spec fn lists(x: SxV, items: Seq<SxV>) -> bool {
    x is Call && *x->Call_callee == dot(SxV::Ref("Promise"@), "all"@) && x->Call_args.len() > 0
        && x->Call_args[0] == SxV::Arr(items)
}

/// The probes are the items of the first list that `Promise.all` is called on.
pub proof fn lemma_list(v: Seq<SxV>, i: int)
    requires
        0 <= i <= v.len(),
    ensures
        first_list(v, i) matches Some(items) ==> exists|k: int|
            i <= k < v.len() && lists(#[trigger] v[k], items) && forall|j: int, other: Seq<SxV>|
                i <= j < k ==> !(#[trigger] lists(v[j], other)),
        first_list(v, i) is None ==> forall|j: int, other: Seq<SxV>|
            i <= j < v.len() ==> !(#[trigger] lists(v[j], other)),
    decreases v.len() - i,
{
    if i < v.len() {
        match probe_list(v[i]) {
            Some(items) => {
                assert(lists(v[i], items));
            },
            None => {
                lemma_list(v, i + 1);
                assert forall|other: Seq<SxV>| !(#[trigger] lists(v[i], other)) by {
                    if lists(v[i], other) {
                        assert(is_member(*v[i]->Call_callee, "Promise"@, "all"@));
                    }
                }
            },
        }
    }
}

/// A probe of unknown form is described by its text, and has neither base nor value.
pub proof fn lemma_unknown_probe(fl: FloatsV, x: SxV, facts: CtxV)
    ensures
        fl.classified(x, facts) is None ==> fl.probe(x, facts) == (ProbeV {
            reads: seq![ReadV::Env { desc: fl.code(x, 0) }],
            base: None,
            value: None,
        }),
        fl.classified(x, facts) matches Some(p) ==> fl.probe(x, facts) == p,
        !(x is Call) ==> fl.classified(x, facts) is None,
{
}

// -------------------------------------------------------------------- the key of a payload

/// An exclusive or of two character codes shows the key: a string that one of them is
/// taken from, on either side, or a variable that holds a string.
pub proof fn lemma_key(s: Seq<char>, name: Seq<char>, other: SxV, a: Seq<SxV>, b: Seq<SxV>, body: Seq<SxV>, op: Seq<char>)
    requires
        !(other is Str),
        !(other is Ref),
    ensures
        ({
            let of_text = apply(dot(SxV::Str(s), "charCodeAt"@), a);
            let of_name = apply(dot(SxV::Ref(name), "charCodeAt"@), a);
            let of_other = apply(dot(other, "charCodeAt"@), b);
            &&& key_at(binary("^"@, of_text, of_other), body) == Some(s)
            &&& key_at(binary("^"@, of_other, of_text), body) == Some(s)
            &&& key_at(binary("^"@, of_name, of_text), body) == Some(s)
            &&& key_at(binary("^"@, of_text, of_name), body) == Some(s)
            &&& key_at(binary("^"@, of_name, of_other), body) == string_var(body, 0, name)
            &&& key_at(binary("^"@, of_other, of_name), body) == string_var(body, 0, name)
            &&& key_at(binary("^"@, of_text, SxV::Num(0)), body) is None
            &&& op != "^"@ ==> key_at(binary(op, of_text, of_other), body) is None
        }),
{
    let of_text = apply(dot(SxV::Str(s), "charCodeAt"@), a);
    let of_name = apply(dot(SxV::Ref(name), "charCodeAt"@), a);
    let of_other = apply(dot(other, "charCodeAt"@), b);
    assert(char_code(of_text) && char_code(of_name) && char_code(of_other));
    assert(!char_code(SxV::Num(0)));
}

/// The string of a variable is the first one that it is declared with.
pub proof fn lemma_string(v: Seq<SxV>, i: int, name: Seq<char>)
    requires
        0 <= i <= v.len(),
    ensures
        string_var(v, i, name) matches Some(s) ==> exists|k: int|
            i <= k < v.len() && (#[trigger] v[k]) == (SxV::Var {
                name,
                value: Box::new(SxV::Str(s)),
            }) && forall|j: int|
                i <= j < k ==> !((#[trigger] v[j]) is Var && v[j]->Var_name == name && (
                *v[j]->Var_value) is Str),
        string_var(v, i, name) is None ==> forall|j: int|
            i <= j < v.len() ==> !((#[trigger] v[j]) is Var && v[j]->Var_name == name && (
            *v[j]->Var_value) is Str),
    decreases v.len() - i,
{
    if i < v.len() {
        lemma_string(v, i + 1, name);
        if v[i] is Var && v[i]->Var_name == name && *v[i]->Var_value is Str {
            assert(v[i] == (SxV::Var {
                name,
                value: Box::new(SxV::Str((*v[i]->Var_value)->Str_0)),
            }));
        }
    }
}

/// The key of a payload is the first one that its nodes show.
pub proof fn lemma_first_key(v: Seq<SxV>, i: int, body: Seq<SxV>)
    requires
        0 <= i <= v.len(),
    ensures
        first_key(v, i, body) matches Some(s) ==> exists|k: int|
            i <= k < v.len() && key_at(#[trigger] v[k], body) == Some(s) && forall|j: int|
                i <= j < k ==> key_at(#[trigger] v[j], body) is None,
        first_key(v, i, body) is None ==> forall|j: int|
            i <= j < v.len() ==> key_at(#[trigger] v[j], body) is None,
    decreases v.len() - i,
{
    if i < v.len() {
        if key_at(v[i], body) is None {
            lemma_first_key(v, i + 1, body);
        } else {
            assert(v[i] == v[i]);
        }
    }
}

/// Of expressions in a sequence the last one counts.
pub proof fn lemma_last_value(v: Seq<SxV>, x: SxV)
    ensures
        last_of(SxV::Sequence(v.push(x))) == last_of(x),
        !(x is Sequence) ==> last_of(x) == x,
        last_of(SxV::Sequence(seq![])) == SxV::Sequence(seq![]),
{
    reveal_with_fuel(last_of, 2);
    assert(v.push(x)[v.len() as int] == x);
}

} // verus!
