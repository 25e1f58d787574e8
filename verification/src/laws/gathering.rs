//! What a challenge comes to: what is said of its payload, which table and which lookup
//! function count, and when it is refused.
use vstd::prelude::*;

#[allow(unused_imports)]
use crate::floats::{ArithOp, FloatsV};
#[allow(unused_imports)]
use crate::jsnum::{int64_of, is_finite, is_nan, magnitude, num_lt};
#[allow(unused_imports)]
use crate::laws::calculating::lemma_cut;
#[allow(unused_imports)]
use crate::pipeline::checks::CtxV;
#[allow(unused_imports)]
use crate::pipeline::flow::{
    first_called, flags, longest, payload, strings_in, sum_exprs, used_decoder, FlowErrV, Harvest,
    PreparedV,
};
#[allow(unused_imports)]
use crate::pipeline::mba::slot;
#[allow(unused_imports)]
use crate::pipeline::probes::first_key;
#[allow(unused_imports)]
use crate::pipeline::statics::{decoder_call, StaticsV};
#[allow(unused_imports)]
use crate::pipeline::sx::{nodes, nodes_of, SxV};
#[allow(unused_imports)]
use crate::pipeline::syntax::{Expr, Stmt};

verus! {

// -------------------------------------------------------------------------- the payload

/// Strings are gathered in their order, and whatever is no string is left out.
pub proof fn lemma_strings(v: Seq<SxV>, n: int)
    requires
        0 <= n < v.len(),
    ensures
        strings_in(v, 0) == Seq::<Seq<char>>::empty(),
        v[n] is Str ==> strings_in(v, n + 1) == strings_in(v, n).push(v[n]->Str_0),
        !(v[n] is Str) ==> strings_in(v, n + 1) == strings_in(v, n),
{
}

/// Flags are gathered where every item is a pair of a name and a boolean, and keep their
/// order.
pub proof fn lemma_flag_pairs(v: Seq<SxV>, n: int)
    requires
        0 <= n <= v.len(),
    ensures
        flags(v, n) is Some <==> forall|i: int| 0 <= i < n ==> flag_pair(#[trigger] v[i]),
        flags(v, n) matches Some(f) ==> f.len() == n && forall|i: int|
            0 <= i < n ==> (#[trigger] f[i]) == (v[i]->Arr_0[0]->Str_0, v[i]->Arr_0[1]->Bool_0),
    decreases n,
{
    if n > 0 {
        lemma_flag_pairs(v, n - 1);
        if forall|i: int| 0 <= i < n ==> flag_pair(#[trigger] v[i]) {
            assert(flag_pair(v[n - 1]));
        }
    }
}

/// A pair of a name and a boolean.
pub open spec fn flag_pair(x: SxV) -> bool {
    x is Arr && x->Arr_0.len() == 2 && x->Arr_0[0] is Str && x->Arr_0[1] is Bool
}

proof fn lemma_meta_names()
    ensures
        "v"@.len() == 1,
        "challenge_id"@.len() == 12,
        "timestamp"@.len() == 9,
        "debug"@.len() == 5,
        "server_hashes"@.len() == 13,
        "meta"@.len() == 4,
{
    reveal_strlit("v");
    reveal_strlit("challenge_id");
    reveal_strlit("timestamp");
    reveal_strlit("debug");
    reveal_strlit("server_hashes");
    reveal_strlit("meta");
}

/// The meta data of a payload: each of its strings goes by its own name, the key is the
/// first one that `debug` shows, and no other property says anything.
pub proof fn lemma_meta_fields(h: Harvest, k: Seq<char>, s: Seq<char>, x: SxV, body: Seq<SxV>)
    ensures
        h.with_meta("v"@, SxV::Str(s), body) == (Harvest { v: s, ..h }),
        h.with_meta("challenge_id"@, SxV::Str(s), body) == (Harvest { challenge_id: s, ..h }),
        h.with_meta("timestamp"@, SxV::Str(s), body) == (Harvest { timestamp: s, ..h }),
        h.key is None ==> h.with_meta("debug"@, x, body) == (Harvest {
            key: first_key(nodes(x), 0, body),
            ..h
        }),
        h.key is Some ==> h.with_meta("debug"@, x, body) == h,
        !(x is Str) ==> h.with_meta("v"@, x, body) == h && h.with_meta("challenge_id"@, x, body) == h
            && h.with_meta("timestamp"@, x, body) == h,
        k != "v"@ && k != "challenge_id"@ && k != "timestamp"@ && k != "debug"@ ==> h.with_meta(
            k,
            x,
            body,
        ) == h,
{
    lemma_meta_names();
}

/// The properties of a returned object: the strings under `server_hashes` join the hashes
/// behind those that are there, what stands under `meta` is read property by property, and
/// no other property says anything.
pub proof fn lemma_payload_fields(
    h: Harvest,
    k: Seq<char>,
    v: Seq<SxV>,
    o: Seq<(Seq<char>, SxV)>,
    x: SxV,
    body: Seq<SxV>,
)
    ensures
        h.with_field("server_hashes"@, SxV::Arr(v), body) == (Harvest {
            hashes: h.hashes + strings_in(v, v.len() as int),
            ..h
        }),
        h.with_field("meta"@, SxV::Obj(o), body) == h.with_metas(o, o.len() as int, body),
        k != "server_hashes"@ && k != "meta"@ ==> h.with_field(k, x, body) == h,
{
    lemma_meta_names();
}

/// Properties are read in their order.
pub proof fn lemma_fields_order(h: Harvest, v: Seq<(Seq<char>, SxV)>, n: int, body: Seq<SxV>)
    requires
        0 <= n < v.len(),
    ensures
        h.with_metas(v, 0, body) == h,
        h.with_fields(v, 0, body) == h,
        h.with_metas(v, n + 1, body) == h.with_metas(v, n, body).with_meta(v[n].0, v[n].1, body),
        h.with_fields(v, n + 1, body) == h.with_fields(v, n, body).with_field(v[n].0, v[n].1, body),
{
}

/// The nodes that say something of the payload: an object that is returned, and the first
/// list of two to twelve flags that a variable holds.
pub proof fn lemma_payload_nodes(
    h: Harvest,
    o: Seq<(Seq<char>, SxV)>,
    name: Seq<char>,
    v: Seq<SxV>,
    x: SxV,
    body: Seq<SxV>,
)
    ensures
        h.with_node(SxV::Ret(Some(Box::new(SxV::Obj(o)))), body) == h.with_fields(
            o,
            o.len() as int,
            body,
        ),
        ({
            let t = h.with_node(SxV::Var { name, value: Box::new(SxV::Arr(v)) }, body);
            let fits = 2 <= v.len() <= 12 && forall|i: int|
                0 <= i < v.len() ==> flag_pair(#[trigger] v[i]);
            &&& fits && h.spec.len() == 0 ==> t == (Harvest { spec: t.spec, ..h }) && t.spec.len()
                == v.len() && forall|i: int|
                0 <= i < v.len() ==> (#[trigger] t.spec[i]) == (
                    v[i]->Arr_0[0]->Str_0,
                    v[i]->Arr_0[1]->Bool_0,
                )
            &&& !fits || h.spec.len() > 0 ==> t == h
        }),
        !(x is Ret) && !(x is Var) ==> h.with_node(x, body) == h,
{
    lemma_flag_pairs(v, v.len() as int);
}

/// What a script says of its payload is said node by node, from nothing.
pub proof fn lemma_payload(body: Seq<SxV>, h: Harvest, n: int)
    requires
        0 <= n < nodes_of(body).len(),
    ensures
        h.with_nodes(0, nodes_of(body)) == h,
        h.with_nodes(n + 1, nodes_of(body)) == h.with_nodes(n, nodes_of(body)).with_node(
            nodes_of(body)[n],
            nodes_of(body),
        ),
        h == (Harvest {
            hashes: seq![],
            v: seq![],
            challenge_id: seq![],
            timestamp: seq![],
            key: None,
            spec: seq![],
        }) ==> payload(body) == h.with_nodes(nodes_of(body).len() as int, nodes_of(body)),
{
}

/// A script is complete where its key is found, it has three hashes, an identifier and a
/// time, and its list of probes is found; anything less is refused, in this order.
pub proof fn lemma_complete(
    fl: FloatsV,
    body: Seq<SxV>,
    strings: Seq<Seq<char>>,
    a: Seq<u64>,
    b: Seq<u64>,
    facts: CtxV,
)
    ensures
        ({
            let r = fl.reading(body, strings, a, b, facts);
            let h = payload(body);
            let key = h.key is Some;
            let three = h.hashes.len() == 3;
            let named = h.challenge_id.len() > 0 && h.timestamp.len() > 0;
            let probes = fl.probes_of(body, facts) is Some;
            &&& r is Ok <==> key && three && named && probes
            &&& r matches Ok(f) ==> f.found == h && f.key == h.key->0 && f.strings == strings
                && f.canon_vars == a && f.raw_vars == b && f.body == body
            &&& r matches Ok(f) ==> fl.probes_of(body, facts) == Some((f.ua_first, f.probes))
            &&& !key ==> r->Err_0 is Payload
            &&& key && !three ==> r->Err_0 is Payload
            &&& key && three && !named ==> r->Err_0 is Payload
            &&& key && three && named && !probes ==> r->Err_0 is Read
        }),
{
}

// ------------------------------------------------------------------------ which one counts

/// The longest table counts; of equally long ones the last.
pub proof fn lemma_longest(v: Seq<(Seq<char>, Seq<Seq<char>>)>, n: int)
    requires
        0 <= n <= v.len(),
    ensures
        n > 0 ==> longest(v, n) is Some && exists|k: int|
            0 <= k < n && (#[trigger] v[k]).1 == longest(v, n)->0 && (forall|j: int|
                0 <= j < n ==> (#[trigger] v[j]).1.len() <= v[k].1.len()) && (forall|j: int|
                k < j < n ==> (#[trigger] v[j]).1.len() < v[k].1.len()),
        n == 0 ==> longest(v, n) is None,
    decreases n,
{
    if n > 0 {
        lemma_longest(v, n - 1);
        assert(v[n - 1] == v[n - 1]);
        if n > 1 {
            let k = choose|k: int|
                0 <= k < n - 1 && (#[trigger] v[k]).1 == longest(v, n - 1)->0 && (forall|j: int|
                    0 <= j < n - 1 ==> (#[trigger] v[j]).1.len() <= v[k].1.len()) && (forall|j: int|
                    k < j < n - 1 ==> (#[trigger] v[j]).1.len() < v[k].1.len());
            assert(v[k] == v[k]);
        }
    }
}

/// The lookup function of a checksum is the first one that it calls.
pub proof fn lemma_first_called(st: StaticsV, v: Seq<&Expr>, i: int)
    requires
        0 <= i <= v.len(),
    ensures
        first_called(st, v, i) is Some ==> exists|k: int|
            i <= k < v.len() && decoder_call(st, #[trigger] v[k]) == first_called(st, v, i)
                && forall|j: int| i <= j < k ==> decoder_call(st, #[trigger] v[j]) is None,
        first_called(st, v, i) is None ==> forall|j: int|
            i <= j < v.len() ==> decoder_call(st, #[trigger] v[j]) is None,
    decreases v.len() - i,
{
    if i < v.len() {
        if decoder_call(st, v[i]) is None {
            lemma_first_called(st, v, i + 1);
        } else {
            assert(v[i] == v[i]);
        }
    }
}

/// How far the value at `k` is from the target.
pub open spec fn distance(fl: FloatsV, target: u64, vals: Seq<u64>, k: int) -> u64 {
    magnitude((fl.op)(ArithOp::Sub, vals[k], target))
}

/// The value that is named where none reaches the target is the nearest to it, and the
/// first of those that are as near; values at no finite distance do not count.
pub proof fn lemma_nearest(fl: FloatsV, target: u64, vals: Seq<u64>, n: int)
    requires
        0 <= n <= vals.len(),
    ensures
        fl.nearest(target, vals, n) is None ==> forall|j: int|
            0 <= j < n ==> !is_finite(#[trigger] distance(fl, target, vals, j)),
        fl.nearest(target, vals, n) matches Some(p) ==> 0 <= p.0 < n && p.1 == distance(
            fl,
            target,
            vals,
            p.0,
        ) && is_finite(p.1) && (forall|j: int|
            0 <= j < n && is_finite(#[trigger] distance(fl, target, vals, j)) ==> !num_lt(
                distance(fl, target, vals, j),
                p.1,
            )) && (forall|j: int|
            0 <= j < p.0 && is_finite(#[trigger] distance(fl, target, vals, j)) ==> num_lt(
                p.1,
                distance(fl, target, vals, j),
            )),
    decreases n,
{
    if n > 0 {
        lemma_nearest(fl, target, vals, n - 1);
        let d = distance(fl, target, vals, n - 1);
        assert(!is_nan(d) || !is_finite(d));
    }
}

/// The numbers of a simplified checksum: under each name the number that its index looks
/// up, and none where a name has no index.
pub proof fn lemma_canonical(
    fl: FloatsV,
    p: PreparedV,
    strings: Seq<Seq<char>>,
    names: Seq<Seq<char>>,
    n: int,
)
    requires
        0 <= n <= names.len(),
    ensures
        fl.canonical_vars(p, strings, names, n) is Ok <==> forall|i: int|
            0 <= i < n ==> slot(p.t.names, 0, #[trigger] names[i]) < p.t.names.len(),
        fl.canonical_vars(p, strings, names, n) matches Ok(v) ==> v.len() == n && forall|i: int|
            0 <= i < n ==> (#[trigger] v[i]) == fl.looked_up_number(
                p,
                strings,
                p.t.args[slot(p.t.names, 0, names[i])],
            ),
    decreases n,
{
    if n > 0 {
        lemma_canonical(fl, p, strings, names, n - 1);
        if forall|i: int| 0 <= i < n ==> slot(p.t.names, 0, #[trigger] names[i]) < p.t.names.len() {
            assert(slot(p.t.names, 0, names[n - 1]) < p.t.names.len());
        }
    }
}

// ----------------------------------------------------------------------------- refusals

/// A script without a table, without a lookup function, or without a statement that turns
/// the table goes no further, in this order.
pub proof fn lemma_refused(fl: FloatsV, program: Seq<Stmt>)
    ensures
        ({
            let st = fl.declared(program);
            let r = fl.prepared(program);
            &&& st.providers.len() == 0 ==> r == Err::<PreparedV, FlowErrV>(FlowErrV::NoStrings)
            &&& st.providers.len() > 0 && st.decoders.len() == 0 ==> r is Err && r->Err_0
                is NoDecoder
            &&& r is Ok ==> st.providers.len() > 0 && st.decoders.len() > 0
            &&& r matches Ok(p) ==> p.program == program && p.st == st && p.orig == longest(
                st.providers,
                st.providers.len() as int,
            )->0
        }),
{
}

/// The words of a refusal: what has failed, and then what is known of it.
pub proof fn lemma_refusal_words(s: Seq<char>)
    ensures
        FlowErrV::Parse(s).words() == "не JS (oxc): "@ + s,
        FlowErrV::NoStrings.words() == "массив строк не найден"@,
        FlowErrV::NoDecoder(s).words() == "декодер не найден: "@ + s,
        FlowErrV::NoRotator(s).words() == "ротатор не найден: "@ + s,
        FlowErrV::Rotation(s).words() == "ротация: "@ + s,
        FlowErrV::Payload(s).words() == "payload: "@ + s,
        FlowErrV::Read(s).words() == "вне модели: "@ + s,
{
}

/// The lookup function of a checksum that calls none is the first that is declared.
pub proof fn lemma_used_decoder(st: StaticsV, e: &Expr)
    ensures
        first_called(st, sum_exprs(e), 0) matches Some(d) ==> used_decoder(st, e) == d,
        first_called(st, sum_exprs(e), 0) is None ==> used_decoder(st, e) == st.decoders[0].0,
{
}

/// One turn more looks up one place further on in the table, forward where it turns to the
/// left and back where it turns to the right.
pub proof fn lemma_turned_place(p: PreparedV, arg: u64, k: int)
    requires
        p.orig.len() > 0,
        k >= 0,
        i64::MIN <= int64_of(arg) - int64_of(p.delta) - k,
        int64_of(arg) - int64_of(p.delta) + k <= i64::MAX,
    ensures
        p.left ==> p.turned(arg, k) == (int64_of(arg) - int64_of(p.delta) + k) % (
        p.orig.len() as int),
        !p.left ==> p.turned(arg, k) == (int64_of(arg) - int64_of(p.delta) - k) % (
        p.orig.len() as int),
{
    lemma_cut(int64_of(arg) - int64_of(p.delta));
    lemma_cut(int64_of(arg) - int64_of(p.delta) + k);
    lemma_cut(int64_of(arg) - int64_of(p.delta) - k);
}

} // verus!
