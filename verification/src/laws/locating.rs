//! What a page's script gives away, and where it is found in it.
use vstd::prelude::*;
#[allow(unused_imports)]
use vstd::utf8::{decode_utf8, encode_utf8, valid_utf8};

#[allow(unused_imports)]
use crate::ints::{trimmed, u64_text};
#[allow(unused_imports)]
use crate::jsnum::int64_of;
#[allow(unused_imports)]
use crate::pipeline::bundle::{
    call_end, duration_delta, env_of, error_at, first_inside, inner_name, inside, last_comma,
    last_number, last_place, line_col, line_start, pair_in, race_at, reads_member, signal_name,
    signal_names, signal_set, stack_pair, timer_delay, zero_inside, zero_timeout_at, BundleEnv,
    Frame, Hit, Shown,
};
#[allow(unused_imports)]
use crate::pipeline::sx::texts;
#[allow(unused_imports)]
use crate::pipeline::syntax::Expr;
#[allow(unused_imports)]
use crate::text::next_at;

verus! {

/// The place `at` lies in the function `f`.
pub open spec fn covers(f: Frame, at: u32) -> bool {
    f.start <= at && at < f.end
}

/// `i` is the first of the places that lie in `f`.
pub open spec fn is_first_in(v: Seq<Hit>, i: int, f: Frame) -> bool {
    &&& 0 <= i < v.len()
    &&& covers(f, v[i].at)
    &&& forall|k: int| 0 <= k < i ==> !covers(f, (#[trigger] v[k]).at)
}

/// One of the places lies in `f`.
pub open spec fn some_in(v: Seq<Hit>, f: Frame) -> bool {
    exists|i: int| 0 <= i < v.len() && covers(f, (#[trigger] v[i]).at)
}

proof fn lemma_first_inside(v: Seq<Hit>, i: int, f: Frame)
    requires
        0 <= i,
        forall|k: int| 0 <= k < i && k < v.len() ==> !covers(f, (#[trigger] v[k]).at),
    ensures
        first_inside(v, i, f) matches Some(p) ==> is_first_in(v, p, f),
        first_inside(v, i, f) is None ==> !some_in(v, f),
    decreases v.len() - i,
{
    if i < v.len() && !covers(f, v[i].at) {
        lemma_first_inside(v, i + 1, f);
    }
}

/// `n` is the name of the innermost of some functions that has one.
pub open spec fn is_innermost_name(frames: Seq<Frame>, n: Seq<char>) -> bool {
    exists|j: int|
        0 <= j < frames.len() && (#[trigger] frames[j]).name == Some(n) && forall|k: int|
            j < k < frames.len() ==> (#[trigger] frames[k]).name is None
}

proof fn lemma_inner_name(frames: Seq<Frame>, k: int)
    requires
        0 <= k <= frames.len(),
        forall|i: int| k <= i < frames.len() ==> (#[trigger] frames[i]).name is None,
    ensures
        inner_name(frames, k) matches Some(n) ==> is_innermost_name(frames, n),
        inner_name(frames, k) is None ==> forall|i: int|
            0 <= i < frames.len() ==> (#[trigger] frames[i]).name is None,
    decreases k,
{
    if k > 0 && frames[k - 1].name is None {
        lemma_inner_name(frames, k - 1);
    }
}

/// `e` and `r` are the first error and the first race in the innermost function around a
/// timeout that holds an error and a race.
pub open spec fn is_pair(s: Shown, frames: Seq<Frame>, e: int, r: int) -> bool {
    exists|j: int|
        0 <= j < frames.len() && is_first_in(s.errors, e, #[trigger] frames[j]) && is_first_in(
            s.races,
            r,
            frames[j],
        ) && forall|k: int|
            j < k < frames.len() ==> !(some_in(s.errors, #[trigger] frames[k]) && some_in(
                s.races,
                frames[k],
            ))
}

/// Some function around a timeout holds an error and a race.
pub open spec fn has_pair(s: Shown, frames: Seq<Frame>) -> bool {
    exists|k: int|
        0 <= k < frames.len() && some_in(s.errors, #[trigger] frames[k]) && some_in(
            s.races,
            frames[k],
        )
}

proof fn lemma_pair_in(s: Shown, frames: Seq<Frame>, k: int)
    requires
        0 <= k <= frames.len(),
        forall|i: int|
            k <= i < frames.len() ==> !(some_in(s.errors, #[trigger] frames[i]) && some_in(
                s.races,
                frames[i],
            )),
    ensures
        pair_in(s, frames, k) matches Some(p) ==> is_pair(s, frames, p.0, p.1),
        pair_in(s, frames, k) is None ==> !has_pair(s, frames),
    decreases k,
{
    if k > 0 {
        let f = frames[k - 1];
        lemma_first_inside(s.errors, 0, f);
        lemma_first_inside(s.races, 0, f);
        if let (Some(e), Some(r)) = (first_inside(s.errors, 0, f), first_inside(s.races, 0, f)) {
            assert(is_first_in(s.errors, e, frames[k - 1]));
            assert(is_pair(s, frames, e, r));
        } else {
            lemma_pair_in(s, frames, k - 1);
        }
    }
}

proof fn lemma_stack_pair(s: Shown, i: int)
    requires
        0 <= i <= s.timeouts.len(),
        forall|k: int| 0 <= k < i ==> !has_pair(s, (#[trigger] s.timeouts[k]).frames),
    ensures
        stack_pair(s, i) matches Some(p) ==> exists|t: int|
            0 <= t < s.timeouts.len() && is_pair(s, (#[trigger] s.timeouts[t]).frames, p.0, p.1)
                && forall|k: int| 0 <= k < t ==> !has_pair(s, (#[trigger] s.timeouts[k]).frames),
        stack_pair(s, i) is None ==> forall|k: int|
            0 <= k < s.timeouts.len() ==> !has_pair(s, (#[trigger] s.timeouts[k]).frames),
    decreases s.timeouts.len() - i,
{
    if i < s.timeouts.len() {
        let f = s.timeouts[i].frames;
        lemma_pair_in(s, f, f.len() as int);
        if pair_in(s, f, f.len() as int) is None {
            lemma_stack_pair(s, i + 1);
        } else {
            let p = pair_in(s, f, f.len() as int)->0;
            assert(is_pair(s, s.timeouts[i].frames, p.0, p.1));
        }
    }
}

/// The error and the race that the facts speak of: the first ones in the innermost
/// function around the first timeout that has both around it.
pub open spec fn is_found(s: Shown, e: int, r: int) -> bool {
    exists|t: int|
        0 <= t < s.timeouts.len() && is_pair(s, (#[trigger] s.timeouts[t]).frames, e, r)
            && forall|k: int| 0 <= k < t ==> !has_pair(s, (#[trigger] s.timeouts[k]).frames)
}

/// Where stack facts are found, they are those of the error and the race that belong to a
/// timeout: the function is the innermost named one around the error, the line and the
/// first column are those of the error, and the second column is that of the race.
pub proof fn lemma_stack_facts(env: BundleEnv, b: Seq<u8>, s: Shown)
    requires
        env_of(env, b, s),
        env.stack is Some,
    ensures
        exists|e: int, r: int|
            #![trigger s.errors[e], s.races[r]]
            is_found(s, e, r) && is_innermost_name(s.errors[e].frames, env.stack->0.fname@) && (
            env.stack->0.line as int,
            env.stack->0.col_error as int,
        ) == line_col(b, s.errors[e].at as int) && env.stack->0.col_race == line_col(
                b,
                s.races[r].at as int,
            ).1,
{
    lemma_stack_pair(s, 0);
    let p = stack_pair(s, 0)->0;
    let frames = s.errors[p.0].frames;
    lemma_inner_name(frames, frames.len() as int);
    assert(is_found(s, p.0, p.1));
    assert(s.errors[p.0].at == s.errors[p.0].at && s.races[p.1].at == s.races[p.1].at);
}

/// Stack facts are missing only where no function around a timeout holds an error and a
/// race, or where no function around the error has a name.
pub proof fn lemma_no_stack(env: BundleEnv, b: Seq<u8>, s: Shown)
    requires
        env_of(env, b, s),
        env.stack is None,
    ensures
        env.timing.timeout_ms == 0,
        !env.timing.macrotask_zero,
        (forall|k: int| 0 <= k < s.timeouts.len() ==> !has_pair(s, (#[trigger] s.timeouts[k]).frames))
            || exists|e: int, r: int|
            #![trigger s.errors[e], s.races[r]]
            is_found(s, e, r) && forall|j: int|
                0 <= j < s.errors[e].frames.len() ==> (#[trigger] s.errors[e].frames[j]).name is None,
{
    lemma_stack_pair(s, 0);
    if stack_pair(s, 0) is Some {
        let p = stack_pair(s, 0)->0;
        let frames = s.errors[p.0].frames;
        lemma_inner_name(frames, frames.len() as int);
        assert(is_found(s, p.0, p.1));
        assert(s.errors[p.0].at == s.errors[p.0].at && s.races[p.1].at == s.races[p.1].at);
    }
}

proof fn lemma_last_place(v: Seq<Hit>, n: int)
    requires
        0 <= n <= v.len(),
    ensures
        forall|i: int| 0 <= i < n ==> (#[trigger] v[i]).at <= last_place(v, n),
        n > 0 ==> exists|i: int| 0 <= i < n && (#[trigger] v[i]).at == last_place(v, n),
    decreases n,
{
    if n > 0 {
        lemma_last_place(v, n - 1);
        if v[n - 1].at > last_place(v, n - 1) || n == 1 {
            assert(v[n - 1].at == last_place(v, n));
        } else {
            let i = choose|i: int| 0 <= i < n - 1 && (#[trigger] v[i]).at == last_place(v, n - 1);
            assert(v[i].at == last_place(v, n));
        }
    }
}

/// The delay is that of the timer around the timeout that stands last in the source, and
/// a timer without delay is one that stands in the innermost function around the error.
pub proof fn lemma_timing_facts(env: BundleEnv, b: Seq<u8>, s: Shown)
    requires
        env_of(env, b, s),
        env.stack is Some,
    ensures
        exists|t: int|
            0 <= t < s.timeouts.len() && env.timing.timeout_ms as nat == timer_delay(
                b,
                0,
                (#[trigger] s.timeouts[t]).at as int,
            ) && forall|k: int| 0 <= k < s.timeouts.len() ==> (#[trigger] s.timeouts[k]).at <= s.timeouts[t].at,
        exists|e: int, r: int|
            #![trigger s.errors[e], s.races[r]]
            is_found(s, e, r) && env.timing.macrotask_zero == (s.errors[e].frames.len() > 0
                && exists|z: int|
                0 <= z < s.zeros.len() && s.errors[e].frames.last().start <= (#[trigger] s.zeros[z])
                    && s.zeros[z] < s.errors[e].frames.last().end),
{
    lemma_stack_pair(s, 0);
    let p = stack_pair(s, 0)->0;
    assert(is_found(s, p.0, p.1));
    assert(s.errors[p.0].at == s.errors[p.0].at && s.races[p.1].at == s.races[p.1].at);
    lemma_last_place(s.timeouts, s.timeouts.len() as int);
    let t = choose|t: int|
        0 <= t < s.timeouts.len() && (#[trigger] s.timeouts[t]).at == last_place(
            s.timeouts,
            s.timeouts.len() as int,
        );
    assert(env.timing.timeout_ms as nat == timer_delay(b, 0, s.timeouts[t].at as int));
    let frames = s.errors[p.0].frames;
    if zero_inside(s.zeros, frames) {
        let z = choose|z: int| 0 <= z < s.zeros.len() && inside(frames.last(), #[trigger] s.zeros[z]);
        assert(frames.last().start <= s.zeros[z]);
    }
    if frames.len() > 0 && exists|z: int|
        0 <= z < s.zeros.len() && frames.last().start <= (#[trigger] s.zeros[z]) && s.zeros[z]
            < frames.last().end {
        let z = choose|z: int|
            0 <= z < s.zeros.len() && frames.last().start <= (#[trigger] s.zeros[z]) && s.zeros[z]
                < frames.last().end;
        assert(inside(frames.last(), s.zeros[z]));
    }
}

/// The page can be told its version only where the script reads both globals and asks for
/// both attributes; its events are those of the signal set; and the duration is measured
/// with what the script takes off it.
pub proof fn lemma_other_facts(env: BundleEnv, b: Seq<u8>, s: Shown)
    requires
        env_of(env, b, s),
    ensures
        env.fe_version_ok <==> s.be_version && s.fe_hash && s.tag_attr && s.sha_attr,
        s.signals matches Some(v) ==> texts(env.signal_events@) == v,
        s.signals is None ==> env.signal_events@.len() == 0,
        s.delta matches Some(d) ==> env.timing.duration_delta == d,
        s.delta is None ==> env.timing.duration_delta == 0,
{
    assert(texts(env.signal_events@).len() == env.signal_events@.len());
}

// ----------------------------------------------------------------------------- positions

/// Lines and columns are counted from one. A line feed starts a line; every other
/// character moves on by as many columns as it has UTF-16 units: its first byte tells two
/// for a character of four bytes and one for every other, its further bytes none.
pub proof fn lemma_position(b: Seq<u8>, n: int)
    requires
        0 <= n < b.len(),
    ensures
        line_col(b, 0) == (1int, 1int),
        b[n] == 0x0a ==> line_col(b, n + 1) == (line_col(b, n).0 + 1, 1int),
        b[n] != 0x0a ==> line_col(b, n + 1).0 == line_col(b, n).0,
        b[n] < 0x80 && b[n] != 0x0a ==> line_col(b, n + 1).1 == line_col(b, n).1 + 1,
        0x80 <= b[n] < 0xc0 ==> line_col(b, n + 1).1 == line_col(b, n).1,
        0xc0 <= b[n] < 0xf0 ==> line_col(b, n + 1).1 == line_col(b, n).1 + 1,
        0xf0 <= b[n] ==> line_col(b, n + 1).1 == line_col(b, n).1 + 2,
{
    lemma_line_start(b, n);
    lemma_line_start(b, n + 1);
    if b[n] != 0x0a {
        assert(line_start(b, n + 1) == line_start(b, n));
    }
}

proof fn lemma_line_start(b: Seq<u8>, n: int)
    requires
        0 <= n <= b.len(),
    ensures
        0 <= line_start(b, n) <= n,
    decreases n,
{
    if n > 0 {
        lemma_line_start(b, n - 1);
    }
}

// -------------------------------------------------------------------------------- delays

proof fn lemma_comma(v: Seq<char>, end: int, c: int)
    requires
        0 <= c < end <= v.len(),
        v[c] == ',',
        forall|k: int| c < k < end ==> #[trigger] v[k] != ',',
    ensures
        last_comma(v, end) == c,
    decreases end - c,
{
    if end - 1 > c {
        assert(v[end - 1] != ',');
        lemma_comma(v, end - 1, c);
    }
}

proof fn lemma_no_comma(v: Seq<char>, end: int)
    requires
        0 <= end <= v.len(),
        forall|k: int| 0 <= k < end ==> #[trigger] v[k] != ',',
    ensures
        last_comma(v, end) == -1,
    decreases end,
{
    if end > 0 {
        assert(v[end - 1] != ',');
        lemma_no_comma(v, end - 1);
    }
}

proof fn lemma_number_prefix(a: Seq<char>, b: Seq<char>, end: int)
    requires
        0 <= end <= a.len(),
    ensures
        last_comma(a + b, end) == last_comma(a, end),
        last_number(a + b, end) == last_number(a, end),
    decreases end,
{
    lemma_comma_prefix(a, b, end);
    crate::pipeline::bundle::lemma_last_comma(a, end);
    let c = last_comma(a, end);
    assert((a + b).subrange(c + 1, end) =~= a.subrange(c + 1, end));
    if c >= 0 {
        lemma_number_prefix(a, b, c);
    }
}

proof fn lemma_comma_prefix(a: Seq<char>, b: Seq<char>, end: int)
    requires
        0 <= end <= a.len(),
    ensures
        last_comma(a + b, end) == last_comma(a, end),
    decreases end,
{
    if end > 0 {
        assert((a + b)[end - 1] == a[end - 1]);
        if a[end - 1] != ',' {
            lemma_comma_prefix(a, b, end - 1);
        }
    }
}

/// The delay among arguments is the last of them that is a whole number of ten or more;
/// where the last argument is none, those before it decide, and without any it is zero.
pub proof fn lemma_delay_argument(before: Seq<char>, last: Seq<char>)
    requires
        forall|k: int| 0 <= k < last.len() ==> #[trigger] last[k] != ',',
    ensures
        ({
            let all = before + seq![','] + last;
            let n = u64_text(trimmed(last));
            &&& n is Some && n->0 >= 10 ==> last_number(all, all.len() as int) == n->0
            &&& !(n is Some && n->0 >= 10) ==> last_number(all, all.len() as int) == last_number(
                before,
                before.len() as int,
            )
            &&& n is Some && n->0 >= 10 ==> last_number(last, last.len() as int) == n->0
            &&& !(n is Some && n->0 >= 10) ==> last_number(last, last.len() as int) == 0
        }),
{
    let all = before + seq![','] + last;
    let c = before.len() as int;
    assert(all[c] == ',');
    assert forall|k: int| c < k < all.len() implies #[trigger] all[k] != ',' by {
        assert(all[k] == last[k - c - 1]);
    }
    lemma_comma(all, all.len() as int, c);
    assert(all.subrange(c + 1, all.len() as int) =~= last);
    assert(all =~= before + (seq![','] + last));
    lemma_number_prefix(before, seq![','] + last, c);
    lemma_no_comma(last, last.len() as int);
    assert(last.subrange(0, last.len() as int) =~= last);
}

/// A byte that neither opens nor closes anything.
pub open spec fn neutral(c: u8) -> bool {
    c != 0x22 && c != 0x27 && c != 0x60 && c != 0x28 && c != 0x29
}

proof fn lemma_call_end_neutral(b: Seq<u8>, q: int, e: int, depth: nat)
    requires
        0 <= q <= e < b.len(),
        depth == 1,
        forall|k: int| q <= k < e ==> neutral(#[trigger] b[k]),
        b[e] == 0x29,
    ensures
        call_end(b, q, depth, 0) == (e, 0nat),
    decreases e - q,
{
    if q < e {
        assert(neutral(b[q]));
        lemma_call_end_neutral(b, q + 1, e, depth);
    }
}

/// How a list of arguments is read to its end, byte by byte: a quote of any of the three
/// kinds opens a string that its like closes, a backslash in a string hides the byte behind
/// it, and outside of strings brackets open and close.
pub proof fn lemma_argument_list(b: Seq<u8>, q: int, depth: nat, quote: u8)
    requires
        0 <= q < b.len(),
    ensures
        quote != 0 && b[q] == 0x5c && q + 2 <= b.len() ==> call_end(b, q, depth, quote) == call_end(
            b,
            q + 2,
            depth,
            quote,
        ),
        quote != 0 && quote != 0x5c && b[q] == quote ==> call_end(b, q, depth, quote) == call_end(
            b,
            q + 1,
            depth,
            0,
        ),
        quote != 0 && b[q] != 0x5c && b[q] != quote ==> call_end(b, q, depth, quote) == call_end(
            b,
            q + 1,
            depth,
            quote,
        ),
        b[q] == 0x22 || b[q] == 0x27 || b[q] == 0x60 ==> call_end(b, q, depth, 0) == call_end(
            b,
            q + 1,
            depth,
            b[q],
        ),
        b[q] == 0x28 ==> call_end(b, q, depth, 0) == call_end(b, q + 1, depth + 1, 0),
        b[q] == 0x29 && depth == 1 ==> call_end(b, q, depth, 0) == (q, 0nat),
        b[q] == 0x29 && depth > 1 ==> call_end(b, q, depth, 0) == call_end(
            b,
            q + 1,
            (depth - 1) as nat,
            0,
        ),
        b[q] != 0x22 && b[q] != 0x27 && b[q] != 0x60 && b[q] != 0x28 && b[q] != 0x29 ==> call_end(
            b,
            q,
            depth,
            0,
        ) == call_end(b, q + 1, depth, 0),
{
}

/// The delay of the timer around a place is read off the arguments between its brackets.
pub proof fn lemma_timer(b: Seq<u8>, p: int, e: int, at: int)
    requires
        next_at(b, encode_utf8("setTimeout"@), 0) == Some(p),
        0 <= p,
        p + 11 <= e < b.len(),
        b[p + 10] == 0x28,
        b[e] == 0x29,
        forall|k: int| p + 11 <= k < e ==> neutral(#[trigger] b[k]),
        p + 10 < at < e,
        valid_utf8(b.subrange(p + 11, e)),
    ensures
        timer_delay(b, 0, at) == last_number(
            decode_utf8(b.subrange(p + 11, e)),
            decode_utf8(b.subrange(p + 11, e)).len() as int,
        ),
{
    assert(call_end(b, p + 10, 0, 0) == call_end(b, p + 11, 1, 0));
    lemma_call_end_neutral(b, p + 11, e, 1);
}

// --------------------------------------------------------------------------------- forms

proof fn lemma_signals(v: Seq<Option<Expr>>, n: int)
    requires
        0 <= n <= v.len(),
    ensures
        signal_names(v, n) matches Some(names) ==> names.len() == n && forall|i: int|
            0 <= i < n ==> (#[trigger] v[i]) is Some && v[i]->0 is Str && v[i]->0->Str_value@ == "dc_"@
                + names[i],
        signal_names(v, n) is None ==> exists|i: int|
            0 <= i < n && !((#[trigger] v[i]) is Some && v[i]->0 is Str && "dc_"@.is_prefix_of(
                v[i]->0->Str_value@,
            )),
    decreases n,
{
    reveal_strlit("dc_");
    if n > 0 {
        lemma_signals(v, n - 1);
        match v[n - 1] {
            Some(Expr::Str { value, .. }) => {
                let t = value@;
                if let Some(s) = signal_name(t) {
                    assert("dc_"@ + s =~= t);
                } else if "dc_"@.is_prefix_of(t) {
                    assert(t.take(3)[0] == t[0] && t.take(3)[1] == t[1] && t.take(3)[2] == t[2]);
                    assert("dc_"@[0] == 'd' && "dc_"@[1] == 'c' && "dc_"@[2] == '_');
                    assert(false);
                }
            },
            _ => {},
        }
        if signal_names(v, n - 1) is None {
            let i = choose|i: int|
                0 <= i < n - 1 && !((#[trigger] v[i]) is Some && v[i]->0 is Str && "dc_"@.is_prefix_of(
                    v[i]->0->Str_value@,
                ));
            assert(!(v[i] is Some && v[i]->0 is Str && "dc_"@.is_prefix_of(v[i]->0->Str_value@)));
        }
    }
}

/// A signal set is made of a list of eight strings or more that all start with `dc_`, and
/// its signals are what follows, in their order.
pub proof fn lemma_signal_set(e: &Expr)
    ensures
        signal_set(e) matches Some(names) ==> ({
            &&& e is New
            &&& *e->New_callee is Ident
            &&& e->New_callee->Ident_0@ == "Set"@
            &&& e->New_args@.len() > 0
            &&& e->New_args@[0] is Some
            &&& e->New_args@[0]->0 is Array
            &&& ({
                let items = e->New_args@[0]->0->Array_0@;
                &&& items.len() == names.len()
                &&& names.len() >= 8
                &&& forall|i: int|
                    0 <= i < names.len() ==> (#[trigger] items[i]) is Some && items[i]->0 is Str
                        && items[i]->0->Str_value@ == "dc_"@ + names[i]
            })
        }),
{
    if signal_set(e) is Some {
        let items = e->New_args@[0]->0->Array_0@;
        lemma_signals(items, items.len() as int);
    }
}

/// What an error is: the first argument of a call is a new `Error`.
pub proof fn lemma_error_form(e: &Expr)
    ensures
        error_at(e) is Some <==> e is Call && e->Call_args@.len() > 0 && e->Call_args@[0] is Some
            && e->Call_args@[0]->0 is New && *e->Call_args@[0]->0->New_callee is Ident
            && e->Call_args@[0]->0->New_callee->Ident_0@ == "Error"@,
        error_at(e) matches Some(at) ==> at == e->Call_args@[0]->0->New_at,
{
}

/// What a race is: `Promise.race` is called and awaited, and it stands where it is
/// awaited.
pub proof fn lemma_race_form(e: &Expr)
    ensures
        race_at(e) is Some <==> e is Await && *e->Await_arg is Call && *e->Await_arg->Call_callee is Member
            && e->Await_arg->Call_callee->Member_prop@ == "race"@
            && *e->Await_arg->Call_callee->Member_obj is Ident
            && e->Await_arg->Call_callee->Member_obj->Ident_0@ == "Promise"@,
        race_at(e) matches Some(at) ==> at == e->Await_at,
{
}

/// Which reads of a property are those of a name.
pub proof fn lemma_member_form(e: &Expr, name: Seq<char>)
    ensures
        reads_member(e, name) <==> e is Member && e->Member_prop@ == name,
{
}

/// A timer without delay: `setTimeout` of two arguments, the second a zero, by its name or
/// as a property of the window.
pub proof fn lemma_zero_timer_form(e: &Expr)
    ensures
        zero_timeout_at(e) matches Some(at) ==> ({
            &&& e is Call
            &&& at == e->Call_at
            &&& e->Call_args@.len() == 2
            &&& e->Call_args@[1] is Some
            &&& e->Call_args@[1]->0 is Num
            &&& e->Call_args@[1]->0->Num_0 % 0x8000_0000_0000_0000 == 0
        }),
        e is Call && e->Call_args@.len() == 2 && e->Call_args@[1] is Some && e->Call_args@[1]->0 is Num
            && e->Call_args@[1]->0->Num_0 == 0 && *e->Call_callee is Ident
            && e->Call_callee->Ident_0@ == "setTimeout"@ ==> zero_timeout_at(e) == Some(e->Call_at),
        e is Call && e->Call_args@.len() == 2 && e->Call_args@[1] is Some && e->Call_args@[1]->0 is Num
            && e->Call_args@[1]->0->Num_0 == 0 && *e->Call_callee is Member
            && e->Call_callee->Member_prop@ == "setTimeout"@ && *e->Call_callee->Member_obj is Ident
            && e->Call_callee->Member_obj->Ident_0@ == "window"@ ==> zero_timeout_at(e) == Some(
            e->Call_at,
        ),
{
}

/// `String(a - b)` takes nothing off a duration, `String(a - (b + k))` takes off `k`, and
/// `String(a - (b + -k))` adds `k`.
pub proof fn lemma_duration_form(e: &Expr)
    requires
        e is Call,
        *e->Call_callee is Ident,
        e->Call_callee->Ident_0@ == "String"@,
        e->Call_args@.len() > 0,
        e->Call_args@[0] is Some,
        e->Call_args@[0]->0 is Binary,
        e->Call_args@[0]->0->Binary_op@ == "-"@,
    ensures
        ({
            let off = *e->Call_args@[0]->0->Binary_r;
            &&& off is Ident ==> duration_delta(e) == Some(0i64)
            &&& off is Binary && off->Binary_op@ == "+"@ && *off->Binary_l is Ident
                && *off->Binary_r is Num ==> duration_delta(e) == Some(
                int64_of(off->Binary_r->Num_0),
            )
            &&& off is Binary && off->Binary_op@ == "+"@ && *off->Binary_l is Ident
                && *off->Binary_r is Unary && off->Binary_r->Unary_op@ == "-"@
                && *off->Binary_r->Unary_arg is Num && int64_of(off->Binary_r->Unary_arg->Num_0)
                > i64::MIN ==> duration_delta(e) == Some(
                (-int64_of(off->Binary_r->Unary_arg->Num_0)) as i64,
            )
            &&& !(off is Ident) && !(off is Binary) ==> duration_delta(e) is None
        }),
{
}

} // verus!
