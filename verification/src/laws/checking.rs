//! What a check of a probe comes to, form by form.
use vstd::prelude::*;

#[allow(unused_imports)]
use crate::floats::FloatsV;
#[allow(unused_imports)]
use crate::pipeline::checks::{
    is_call, is_member, is_prop, is_text, verdict, with_call, with_member, with_prop, with_str,
    CheckVal, CtxV,
};
#[allow(unused_imports)]
use crate::pipeline::sx::{nodes, SxV};

verus! {

/// Some node of `c` reads the property `prop` of something.
pub open spec fn reads(c: SxV, prop: Seq<char>) -> bool {
    exists|i: int|
        0 <= i < nodes(c).len() && (#[trigger] nodes(c)[i]) is Member && nodes(c)[i]->Member_prop
            == prop
}

/// Some node of `c` reads the property `prop` of the variable `root`.
pub open spec fn reads_of(c: SxV, root: Seq<char>, prop: Seq<char>) -> bool {
    exists|i: int|
        0 <= i < nodes(c).len() && (#[trigger] nodes(c)[i]) == (SxV::Member {
            obj: Box::new(SxV::Ref(root)),
            prop,
        })
}

/// Some node of `c` calls `name`, as a variable or as a property.
pub open spec fn calls(c: SxV, name: Seq<char>) -> bool {
    exists|i: int|
        0 <= i < nodes(c).len() && (#[trigger] nodes(c)[i]) is Call && ({
            let f = *nodes(c)[i]->Call_callee;
            f == SxV::Ref(name) || (f is Member && f->Member_prop == name)
        })
}

/// Some node of `c` is the string `s`.
pub open spec fn mentions(c: SxV, s: Seq<char>) -> bool {
    exists|i: int| 0 <= i < nodes(c).len() && (#[trigger] nodes(c)[i]) == SxV::Str(s)
}

/// A check that is no literal and has no value of its own.
pub open spec fn open_check(c: SxV) -> bool {
    !(c is Bool) && !(c is Num) && !(c is Str) && !(c is Undef) && !(c is Null) && !(c is Arr) && !(
    c is Obj) && !(c is Fn) && !(c is Class)
}

/// The nodes that are searched for are those that read, call or are what is asked for.
pub proof fn lemma_reads(c: SxV, a: Seq<char>, b: Seq<char>)
    ensures
        with_prop(c, a) == reads(c, a),
        with_call(c, a) == calls(c, a),
        with_str(c, a) == mentions(c, a),
        with_member(c, a, b) == reads_of(c, a, b),
{
    if with_prop(c, a) {
        let i = choose|i: int| 0 <= i < nodes(c).len() && is_prop(#[trigger] nodes(c)[i], a);
        assert(nodes(c)[i] is Member);
    }
    if reads(c, a) {
        let i = choose|i: int|
            0 <= i < nodes(c).len() && (#[trigger] nodes(c)[i]) is Member
                && nodes(c)[i]->Member_prop == a;
        assert(is_prop(nodes(c)[i], a));
    }
    if with_call(c, a) {
        let i = choose|i: int| 0 <= i < nodes(c).len() && is_call(#[trigger] nodes(c)[i], a);
        assert(nodes(c)[i] is Call);
    }
    if calls(c, a) {
        let i = choose|i: int|
            0 <= i < nodes(c).len() && (#[trigger] nodes(c)[i]) is Call && ({
                let f = *nodes(c)[i]->Call_callee;
                f == SxV::Ref(a) || (f is Member && f->Member_prop == a)
            });
        assert(is_call(nodes(c)[i], a));
    }
    if with_str(c, a) {
        let i = choose|i: int| 0 <= i < nodes(c).len() && is_text(#[trigger] nodes(c)[i], a);
        assert(nodes(c)[i] == SxV::Str(a));
    }
    if mentions(c, a) {
        let i = choose|i: int|
            0 <= i < nodes(c).len() && (#[trigger] nodes(c)[i]) == SxV::Str(a);
        assert(is_text(nodes(c)[i], a));
    }
    if with_member(c, a, b) {
        let i = choose|i: int| 0 <= i < nodes(c).len() && is_member(#[trigger] nodes(c)[i], a, b);
        assert(nodes(c)[i] == (SxV::Member { obj: Box::new(SxV::Ref(a)), prop: b }));
    }
    if reads_of(c, a, b) {
        let i = choose|i: int|
            0 <= i < nodes(c).len() && (#[trigger] nodes(c)[i]) == (SxV::Member {
                obj: Box::new(SxV::Ref(a)),
                prop: b,
            });
        assert(is_member(nodes(c)[i], a, b));
    }
}

/// The forms that are never true in a browser.
pub open spec fn never(c: SxV) -> bool {
    ||| reads_of(c, "navigator"@, "webdriver"@)
    ||| calls(c, "isSealed"@)
    ||| reads(c, "contentWindow"@) && reads(c, "srcdoc"@)
    ||| calls(c, "endsWith"@) && reads_of(c, "window"@, "top"@)
}

/// What is computed of the styles of an element.
pub open spec fn styles(c: SxV) -> bool {
    calls(c, "getComputedStyle"@) && calls(c, "getPropertyValue"@)
}

/// What is measured of an element.
pub open spec fn measures_size(c: SxV) -> bool {
    reads(c, "offsetWidth"@) || reads(c, "offsetHeight"@) || calls(c, "getBoundingClientRect"@)
        || reads(c, "scrollHeight"@)
}

/// The forms that are always true in a browser.
pub open spec fn always(c: SxV) -> bool {
    ||| mentions(c, "[native code]"@) && calls(c, "includes"@)
    ||| mentions(c, "[object Window]"@)
    ||| mentions(c, "NodeList"@)
    ||| c is Un && c->Un_op == "!"@ && calls(c, "isArray"@) && calls(c, "querySelectorAll"@)
    ||| reads(c, "captureStackTrace"@)
    ||| c is Bin && c->Bin_op == "instanceof"@
}

/// `c` compares something with itself and a number more.
pub open spec fn adds_to_itself(c: SxV) -> bool {
    c is Bin && c->Bin_op == "==="@ && (*c->Bin_r) is Bin && (*c->Bin_r)->Bin_op == "+"@ && (
    *(*c->Bin_r)->Bin_r) is Num
}

proof fn lemma_all_forms(c: SxV)
    ensures
        with_member(c, "navigator"@, "webdriver"@) == reads_of(c, "navigator"@, "webdriver"@),
        with_call(c, "isSealed"@) == calls(c, "isSealed"@),
        with_prop(c, "contentWindow"@) == reads(c, "contentWindow"@),
        with_prop(c, "srcdoc"@) == reads(c, "srcdoc"@),
        with_call(c, "endsWith"@) == calls(c, "endsWith"@),
        with_member(c, "window"@, "top"@) == reads_of(c, "window"@, "top"@),
        with_call(c, "getComputedStyle"@) == calls(c, "getComputedStyle"@),
        with_call(c, "getPropertyValue"@) == calls(c, "getPropertyValue"@),
        with_prop(c, "offsetWidth"@) == reads(c, "offsetWidth"@),
        with_prop(c, "offsetHeight"@) == reads(c, "offsetHeight"@),
        with_call(c, "getBoundingClientRect"@) == calls(c, "getBoundingClientRect"@),
        with_prop(c, "scrollHeight"@) == reads(c, "scrollHeight"@),
        with_str(c, "[native code]"@) == mentions(c, "[native code]"@),
        with_call(c, "includes"@) == calls(c, "includes"@),
        with_str(c, "[object Window]"@) == mentions(c, "[object Window]"@),
        with_str(c, "NodeList"@) == mentions(c, "NodeList"@),
        with_call(c, "isArray"@) == calls(c, "isArray"@),
        with_call(c, "querySelectorAll"@) == calls(c, "querySelectorAll"@),
        with_prop(c, "captureStackTrace"@) == reads(c, "captureStackTrace"@),
{
    lemma_reads(c, "navigator"@, "webdriver"@);
    lemma_reads(c, "isSealed"@, "isSealed"@);
    lemma_reads(c, "contentWindow"@, "contentWindow"@);
    lemma_reads(c, "srcdoc"@, "srcdoc"@);
    lemma_reads(c, "endsWith"@, "endsWith"@);
    lemma_reads(c, "window"@, "top"@);
    lemma_reads(c, "getComputedStyle"@, "getComputedStyle"@);
    lemma_reads(c, "getPropertyValue"@, "getPropertyValue"@);
    lemma_reads(c, "offsetWidth"@, "offsetWidth"@);
    lemma_reads(c, "offsetHeight"@, "offsetHeight"@);
    lemma_reads(c, "getBoundingClientRect"@, "getBoundingClientRect"@);
    lemma_reads(c, "scrollHeight"@, "scrollHeight"@);
    lemma_reads(c, "[native code]"@, "[native code]"@);
    lemma_reads(c, "includes"@, "includes"@);
    lemma_reads(c, "[object Window]"@, "[object Window]"@);
    lemma_reads(c, "NodeList"@, "NodeList"@);
    lemma_reads(c, "isArray"@, "isArray"@);
    lemma_reads(c, "querySelectorAll"@, "querySelectorAll"@);
    lemma_reads(c, "captureStackTrace"@, "captureStackTrace"@);
}

/// A check that is a literal has the truth value of the literal.
pub proof fn lemma_literal_check(fl: FloatsV, b: bool, s: Seq<char>, n: u64, ctx: CtxV)
    ensures
        verdict(fl, SxV::Bool(b), ctx) == (if b { CheckVal::True } else { CheckVal::False }),
        verdict(fl, SxV::Str(s), ctx) == (if s.len() > 0 { CheckVal::True } else { CheckVal::False }),
        verdict(fl, SxV::Undef, ctx) == CheckVal::False,
        verdict(fl, SxV::Null, ctx) == CheckVal::False,
        verdict(fl, SxV::Num(n), ctx) == (if 0 < n % 0x8000_0000_0000_0000
            <= 0x7ff0_0000_0000_0000 {
            CheckVal::True
        } else {
            CheckVal::False
        }),
{
}

/// A thing is not itself and something more: `e === e + k` is false for every `e` and
/// every `k` but zero.
pub proof fn lemma_self_plus(fl: FloatsV, e: SxV, k: u64, ctx: CtxV)
    requires
        k % 0x8000_0000_0000_0000 != 0,
    ensures
        verdict(
            fl,
            SxV::Bin {
                op: "==="@,
                l: Box::new(e),
                r: Box::new(SxV::Bin { op: "+"@, l: Box::new(e), r: Box::new(SxV::Num(k)) }),
            },
            ctx,
        ) == CheckVal::False,
{
}

/// No browser that a person uses says that it is driven, that something is sealed, that
/// a frame's document is its source, or that its top window ends in something: a check of
/// such a form is false, whatever the page is.
pub proof fn lemma_never(fl: FloatsV, c: SxV, ctx: CtxV)
    requires
        open_check(c),
        never(c),
    ensures
        verdict(fl, c, ctx) == CheckVal::False,
{
    lemma_all_forms(c);
}

/// A frame's window and its source, each wherever it stands: false.
pub proof fn lemma_frame_source(fl: FloatsV, c: SxV, ctx: CtxV)
    requires
        open_check(c),
        reads(c, "contentWindow"@),
        reads(c, "srcdoc"@),
    ensures
        verdict(fl, c, ctx) == CheckVal::False,
{
    lemma_never(fl, c, ctx);
}

/// The browser admits to no driver.
pub proof fn lemma_no_driver(fl: FloatsV, c: SxV, ctx: CtxV)
    requires
        open_check(c),
        reads_of(c, "navigator"@, "webdriver"@),
    ensures
        verdict(fl, c, ctx) == CheckVal::False,
{
    lemma_never(fl, c, ctx);
}

/// Nothing is sealed.
pub proof fn lemma_unsealed(fl: FloatsV, c: SxV, ctx: CtxV)
    requires
        open_check(c),
        calls(c, "isSealed"@),
    ensures
        verdict(fl, c, ctx) == CheckVal::False,
{
    lemma_never(fl, c, ctx);
}

/// The top window ends in nothing in particular.
pub proof fn lemma_top_ends(fl: FloatsV, c: SxV, ctx: CtxV)
    requires
        open_check(c),
        calls(c, "endsWith"@),
        reads_of(c, "window"@, "top"@),
    ensures
        verdict(fl, c, ctx) == CheckVal::False,
{
    lemma_never(fl, c, ctx);
}

/// A style that is computed and read has a value: true, whatever the page is.
pub proof fn lemma_computed_style(fl: FloatsV, c: SxV, ctx: CtxV)
    requires
        open_check(c),
        !never(c),
        !adds_to_itself(c),
        calls(c, "getComputedStyle"@),
        calls(c, "getPropertyValue"@),
    ensures
        verdict(fl, c, ctx) == CheckVal::True,
{
    lemma_all_forms(c);
}

/// An element has a size exactly where it is attached with a style.
pub proof fn lemma_size(fl: FloatsV, c: SxV, ctx: CtxV)
    requires
        open_check(c),
        !never(c),
        !adds_to_itself(c),
        !styles(c),
        reads(c, "offsetWidth"@) || reads(c, "offsetHeight"@) || calls(c, "getBoundingClientRect"@)
            || reads(c, "scrollHeight"@),
    ensures
        ctx.attached_styled ==> verdict(fl, c, ctx) == CheckVal::True,
        !ctx.attached_styled ==> verdict(fl, c, ctx) == CheckVal::False,
{
    lemma_all_forms(c);
}

/// What every browser does: its functions are native, its window and its lists of nodes
/// are what they are called, a list of nodes is no array, stacks can be captured, and what
/// is made by a constructor is an instance of it. Such a check is true, whatever the page
/// is.
pub proof fn lemma_always(fl: FloatsV, c: SxV, ctx: CtxV)
    requires
        open_check(c),
        !never(c),
        !adds_to_itself(c),
        !styles(c),
        !measures_size(c),
        ({
            ||| mentions(c, "[native code]"@) && calls(c, "includes"@)
            ||| mentions(c, "[object Window]"@)
            ||| mentions(c, "NodeList"@)
            ||| c is Un && c->Un_op == "!"@ && calls(c, "isArray"@) && calls(
                c,
                "querySelectorAll"@,
            )
            ||| reads(c, "captureStackTrace"@)
            ||| c is Bin && c->Bin_op == "instanceof"@
        }),
    ensures
        verdict(fl, c, ctx) == CheckVal::True,
{
    lemma_all_forms(c);
}

/// None of the forms that are decided without the page.
pub open spec fn of_the_page(c: SxV) -> bool {
    open_check(c) && !never(c) && !adds_to_itself(c) && !styles(c) && !measures_size(c) && !always(
        c,
    )
}

/// A claim about an attribute, either way round, is true exactly where the facts of the
/// page hold the attribute with that value.
pub proof fn lemma_attribute_claims(fl: FloatsV, ask: SxV, attr: Seq<char>, value: Seq<char>, ctx: CtxV)
    requires
        ask is Call,
        (*ask->Call_callee) is Member,
        (*ask->Call_callee)->Member_prop == "getAttribute"@,
        ask->Call_args.len() > 0,
        ask->Call_args[0] == SxV::Str(attr),
    ensures
        ({
            let c = SxV::Bin {
                op: "==="@,
                l: Box::new(ask),
                r: Box::new(SxV::Str(value)),
            };
            of_the_page(c) ==> verdict(fl, c, ctx) == (if ctx.attrs.contains((attr, value)) {
                CheckVal::True
            } else {
                CheckVal::False
            })
        }),
        ({
            let c = SxV::Bin {
                op: "==="@,
                l: Box::new(SxV::Str(value)),
                r: Box::new(ask),
            };
            of_the_page(c) ==> verdict(fl, c, ctx) == (if ctx.attrs.contains((attr, value)) {
                CheckVal::True
            } else {
                CheckVal::False
            })
        }),
{
    lemma_all_forms(SxV::Bin { op: "==="@, l: Box::new(ask), r: Box::new(SxV::Str(value)) });
    lemma_all_forms(SxV::Bin { op: "==="@, l: Box::new(SxV::Str(value)), r: Box::new(ask) });
}

/// A claim that something has a property of its own is true exactly where the facts of
/// the page hold that name.
pub proof fn lemma_global_claims(fl: FloatsV, c: SxV, name: Seq<char>, ctx: CtxV)
    requires
        of_the_page(c),
        c is Call,
        (*c->Call_callee) is Member,
        (*c->Call_callee)->Member_prop == "hasOwnProperty"@,
        c->Call_args.len() > 0,
        c->Call_args[0] == SxV::Str(name),
    ensures
        ctx.globals.contains(name) ==> verdict(fl, c, ctx) == CheckVal::True,
        !ctx.globals.contains(name) ==> verdict(fl, c, ctx) == CheckVal::False,
{
    lemma_all_forms(c);
}

/// A plain function that is called without a receiver sees the window: true, either way
/// round.
pub proof fn lemma_receiver(fl: FloatsV, f: SxV, ctx: CtxV)
    requires
        f is Fn,
    ensures
        ({
            let call = SxV::Call { callee: Box::new(f), args: seq![] };
            let c = SxV::Bin {
                op: "==="@,
                l: Box::new(call),
                r: Box::new(SxV::Ref("window"@)),
            };
            of_the_page(c) ==> verdict(fl, c, ctx) == CheckVal::True
        }),
        ({
            let call = SxV::Call { callee: Box::new(f), args: seq![] };
            let c = SxV::Bin {
                op: "==="@,
                l: Box::new(SxV::Ref("window"@)),
                r: Box::new(call),
            };
            of_the_page(c) ==> verdict(fl, c, ctx) == CheckVal::True
        }),
{
    let call = SxV::Call { callee: Box::new(f), args: seq![] };
    lemma_all_forms(
        SxV::Bin { op: "==="@, l: Box::new(call), r: Box::new(SxV::Ref("window"@)) },
    );
    lemma_all_forms(
        SxV::Bin { op: "==="@, l: Box::new(SxV::Ref("window"@)), r: Box::new(call) },
    );
}

/// A check of no known form is not guessed at.
pub proof fn lemma_no_form(fl: FloatsV, c: SxV, ctx: CtxV)
    requires
        of_the_page(c),
        !(c is Bin),
        !(c is Call),
    ensures
        verdict(fl, c, ctx) == CheckVal::Unknown,
{
    lemma_all_forms(c);
}

/// A comparison that is no equality, or one without a string and without the window, is
/// not guessed at.
pub proof fn lemma_no_comparison(fl: FloatsV, c: SxV, ctx: CtxV)
    requires
        of_the_page(c),
        c is Bin,
        c->Bin_op != "==="@ || (!((*c->Bin_l) is Str) && !((*c->Bin_r) is Str) && *c->Bin_l != SxV::Ref(
            "window"@,
        ) && *c->Bin_r != SxV::Ref("window"@)),
    ensures
        verdict(fl, c, ctx) == CheckVal::Unknown,
{
    lemma_all_forms(c);
}

/// A call of anything but `hasOwnProperty` is not guessed at.
pub proof fn lemma_no_call(fl: FloatsV, c: SxV, ctx: CtxV)
    requires
        of_the_page(c),
        c is Call,
        !((*c->Call_callee) is Member) || (*c->Call_callee)->Member_prop != "hasOwnProperty"@
            || c->Call_args.len() == 0 || !(c->Call_args[0] is Str),
    ensures
        verdict(fl, c, ctx) == CheckVal::Unknown,
{
    lemma_all_forms(c);
}

} // verus!
