//! Arithmetic trees: compiling them to programs, and telling the family of
//! checksums they belong to.
use vstd::arithmetic::power2::{lemma_pow2_pos, pow2};
use vstd::prelude::*;
use vstd::relations::{sorted_by, total_ordering};

use crate::floats::{FloatOps, FloatsV};
use crate::jsnum::{
    bits_of_int, bits_of_nat, finite, from_i64, from_u64, int32_of, int64_of, integral, is_finite, is_integral, less,
    less_eq, magnitude, negate, num_le, num_lt, to_i64, to_int32, to_uint32, uint32_of, SIGN,
};
use crate::pipeline::ops::{apply, height, takes, Op, Program, DEPTH};
use crate::text::{bytes_eq, dec_usize, decimal, digits, hex_u64, join2, own, push_bytes, str_eq};

verus! {

/// A node of a tree that is laid out in a list, its operands before it.
pub enum Math {
    /// A number, as the bits of its binary64 value.
    Num(u64),
    Var(String),
    Neg(usize),
    /// An operation of two operands.
    Bin { op: Op, l: usize, r: usize },
}

/// A [`Math`] as a mathematical value.
pub enum MathV {
    Num(u64),
    Var(Seq<char>),
    Neg(int),
    Bin { op: Op, l: int, r: int },
}

impl View for Math {
    type V = MathV;

    open spec fn view(&self) -> MathV {
        match self {
            Math::Num(n) => MathV::Num(*n),
            Math::Var(s) => MathV::Var(s@),
            Math::Neg(a) => MathV::Neg(*a as int),
            Math::Bin { op, l, r } => MathV::Bin { op: *op, l: *l as int, r: *r as int },
        }
    }
}

/// The nodes of a list.
pub open spec fn node_views(v: Seq<Math>) -> Seq<MathV> {
    Seq::new(v.len(), |i: int| v[i]@)
}

/// The operands of node `i` stand before it, and an operation of two operands is
/// one.
pub open spec fn placed(v: Seq<MathV>, i: int) -> bool {
    match v[i] {
        MathV::Neg(a) => 0 <= a < i,
        MathV::Bin { op, l, r } => 0 <= l < i && 0 <= r < i && takes(op) == 2,
        _ => true,
    }
}

/// A tree: the last node is its root.
pub open spec fn is_tree(v: Seq<MathV>) -> bool {
    v.len() > 0 && forall|i: int| 0 <= i < v.len() ==> #[trigger] placed(v, i)
}

impl FloatsV {
    /// The value of the node `i`, given the values of the variables.
    pub open spec fn value(&self, v: Seq<MathV>, i: int, env: spec_fn(Seq<char>) -> u64) -> u64
        decreases i,
        when 0 <= i < v.len() && is_tree(v)
    {
        proof {
            assert(placed(v, i));
        }
        match v[i] {
            MathV::Num(n) => n,
            MathV::Var(s) => env(s),
            MathV::Neg(a) => crate::jsnum::negated(self.value(v, a, env)),
            MathV::Bin { op, l, r } => self.apply(op, self.value(v, l, env), self.value(v, r, env)),
        }
    }
}

// ----------------------------------------------------------------------- programs

/// Where a name stands first in a list, from place `i` on; the length if nowhere.
pub open spec fn slot(names: Seq<Seq<char>>, i: int, name: Seq<char>) -> int
    decreases names.len() - i,
{
    if i < 0 || i >= names.len() {
        names.len() as int
    } else if names[i] == name {
        i
    } else {
        slot(names, i + 1, name)
    }
}

/// The list with a name that it may have already.
pub open spec fn with_name(names: Seq<Seq<char>>, name: Seq<char>) -> Seq<Seq<char>> {
    if slot(names, 0, name) == names.len() { names.push(name) } else { names }
}

/// The step that pushes the variable of slot `s`.
pub open spec fn var_op(s: int) -> Op {
    Op::Var((s % 256) as u8)
}

/// Steps, and the names of the variables they use, in slot order.
pub struct Emitted {
    pub ops: Seq<Op>,
    pub names: Seq<Seq<char>>,
}

/// The steps that push the value of node `i`, behind those there are.
pub open spec fn emitted(v: Seq<MathV>, i: int, e: Emitted) -> Emitted
    decreases i,
    when 0 <= i < v.len() && is_tree(v)
{
    proof {
        assert(placed(v, i));
    }
    match v[i] {
        MathV::Num(n) => Emitted { ops: e.ops.push(Op::Const(n)), names: e.names },
        MathV::Var(s) => Emitted {
            ops: e.ops.push(var_op(slot(e.names, 0, s))),
            names: with_name(e.names, s),
        },
        MathV::Neg(a) => {
            let x = emitted(v, a, e);
            Emitted { ops: x.ops.push(Op::Neg), names: x.names }
        },
        MathV::Bin { op, l, r } => {
            let x = emitted(v, r, emitted(v, l, e));
            Emitted { ops: x.ops.push(op), names: x.names }
        },
    }
}

/// The program of a tree.
pub open spec fn compiled(v: Seq<MathV>) -> Emitted {
    emitted(v, v.len() - 1, Emitted { ops: seq![], names: seq![] })
}

/// The texts of a list of strings.
pub open spec fn names_of(v: Seq<String>) -> Seq<Seq<char>> {
    Seq::new(v.len(), |i: int| v[i]@)
}

/// Where `name` stands in the list, or the length.
pub fn slot_of(names: &Vec<String>, name: &str) -> (s: usize)
    ensures
        s == slot(names_of(names@), 0, name@),
        s <= names@.len(),
{
    let mut i: usize = 0;
    while i < names.len()
        invariant
            i <= names@.len(),
            slot(names_of(names@), 0, name@) == slot(names_of(names@), i as int, name@),
        decreases names@.len() - i,
    {
        if str_eq(names[i].as_str(), name) {
            return i;
        }
        i += 1;
    }
    i
}

/// The step that pushes the variable of slot `s`; slots are counted modulo 256.
pub fn var_step(s: usize) -> (op: Op)
    ensures
        op == var_op(s as int),
{
    Op::Var((s % 256) as u8)
}

fn emit_ops(v: &Vec<Math>, i: usize, ops: &mut Vec<Op>, names: &mut Vec<String>)
    requires
        i < v@.len(),
        is_tree(node_views(v@)),
    ensures
        (Emitted { ops: final(ops)@, names: names_of(final(names)@) }) == emitted(
            node_views(v@),
            i as int,
            Emitted { ops: old(ops)@, names: names_of(old(names)@) },
        ),
    decreases i,
{
    let ghost m = node_views(v@);
    assert(placed(m, i as int));
    assert(m[i as int] == v@[i as int]@);
    match &v[i] {
        Math::Num(n) => ops.push(Op::Const(*n)),
        Math::Var(s) => {
            let k: usize = slot_of(names, s.as_str());
            let ghost before = names_of(names@);
            if k == names.len() {
                names.push(own(s.as_str()));
            }
            assert(names_of(names@) =~= with_name(before, s@));
            ops.push(var_step(k));
        },
        Math::Neg(a) => {
            emit_ops(v, *a, ops, names);
            ops.push(Op::Neg);
        },
        Math::Bin { op, l, r } => {
            emit_ops(v, *l, ops, names);
            emit_ops(v, *r, ops, names);
            ops.push(*op);
        },
    }
}

/// The steps for a node leave one number more on the stack.
pub proof fn lemma_emitted_height(v: Seq<MathV>, i: int, e: Emitted)
    requires
        is_tree(v),
        0 <= i < v.len(),
        height(e.ops) is Some,
        height(e.ops)->0 >= 0,
    ensures
        height(emitted(v, i, e).ops) == Some(height(e.ops)->0 + 1),
    decreases i,
{
    assert(placed(v, i));
    match v[i] {
        MathV::Num(n) => {
            assert(e.ops.push(Op::Const(n)).drop_last() =~= e.ops);
        },
        MathV::Var(s) => {
            assert(e.ops.push(var_op(slot(e.names, 0, s))).drop_last() =~= e.ops);
        },
        MathV::Neg(a) => {
            lemma_emitted_height(v, a, e);
            let x = emitted(v, a, e);
            assert(x.ops.push(Op::Neg).drop_last() =~= x.ops);
        },
        MathV::Bin { op, l, r } => {
            lemma_emitted_height(v, l, e);
            let x = emitted(v, l, e);
            lemma_emitted_height(v, r, x);
            let y = emitted(v, r, x);
            assert(y.ops.push(op).drop_last() =~= y.ops);
        },
    }
}

/// How many numbers the steps for node `i` hold at a time.
pub open spec fn need(v: Seq<MathV>, i: int) -> int
    decreases i,
    when 0 <= i < v.len() && is_tree(v)
{
    proof {
        assert(placed(v, i));
    }
    match v[i] {
        MathV::Neg(a) => need(v, a),
        MathV::Bin { l, r, .. } => if need(v, l) > need(v, r) { need(v, l) } else { need(v, r) + 1 },
        _ => 1,
    }
}

/// The variables hold what `env` says of the names.
pub open spec fn bound(names: Seq<Seq<char>>, vars: Seq<u64>, env: spec_fn(Seq<char>) -> u64) -> bool {
    &&& names.len() <= vars.len()
    &&& names.len() <= 256
    &&& forall|i: int| 0 <= i < names.len() ==> vars[i] == env(#[trigger] names[i])
}

proof fn lemma_slot(names: Seq<Seq<char>>, i: int, name: Seq<char>)
    requires
        0 <= i <= names.len(),
    ensures
        i <= slot(names, i, name) <= names.len(),
        slot(names, i, name) < names.len() ==> names[slot(names, i, name)] == name,
    decreases names.len() - i,
{
    if i < names.len() && names[i] != name {
        lemma_slot(names, i + 1, name);
    }
}

/// Names keep their slots.
proof fn lemma_emitted_names(v: Seq<MathV>, i: int, e: Emitted)
    requires
        is_tree(v),
        0 <= i < v.len(),
    ensures
        e.names.len() <= emitted(v, i, e).names.len(),
        emitted(v, i, e).names.take(e.names.len() as int) == e.names,
    decreases i,
{
    assert(placed(v, i));
    match v[i] {
        MathV::Num(n) => {
            assert(e.names.take(e.names.len() as int) =~= e.names);
        },
        MathV::Var(s) => {
            assert(with_name(e.names, s).take(e.names.len() as int) =~= e.names);
        },
        MathV::Neg(a) => {
            lemma_emitted_names(v, a, e);
        },
        MathV::Bin { l, r, .. } => {
            lemma_emitted_names(v, l, e);
            let x = emitted(v, l, e);
            lemma_emitted_names(v, r, x);
            let y = emitted(v, r, x);
            assert(y.names.take(e.names.len() as int) =~= x.names.take(e.names.len() as int));
        },
    }
}

/// The names of the first slots are bound as all are.
proof fn lemma_bound_part(
    part: Seq<Seq<char>>,
    names: Seq<Seq<char>>,
    vars: Seq<u64>,
    env: spec_fn(Seq<char>) -> u64,
)
    requires
        bound(names, vars, env),
        part.len() <= names.len(),
        names.take(part.len() as int) == part,
    ensures
        bound(part, vars, env),
{
    assert forall|i: int| 0 <= i < part.len() implies vars[i] == env(#[trigger] part[i]) by {
        assert(part[i] == names.take(part.len() as int)[i]);
        assert(names[i] == part[i]);
    }
}

/// The steps for a node push the value of the node, where the stack has room and
/// the variables hold the values of the names.
pub proof fn lemma_emitted_value(
    fl: FloatsV,
    v: Seq<MathV>,
    i: int,
    e: Emitted,
    vars: Seq<u64>,
    env: spec_fn(Seq<char>) -> u64,
)
    requires
        is_tree(v),
        0 <= i < v.len(),
        fl.stack(e.ops, vars) is Some,
        fl.stack(e.ops, vars)->0.len() + need(v, i) <= DEPTH,
        bound(emitted(v, i, e).names, vars, env),
    ensures
        fl.stack(emitted(v, i, e).ops, vars) == Some(
            fl.stack(e.ops, vars)->0.push(fl.value(v, i, env)),
        ),
        need(v, i) >= 1,
    decreases i,
{
    assert(placed(v, i));
    let st = fl.stack(e.ops, vars)->0;
    lemma_need(v, i);
    match v[i] {
        MathV::Num(n) => {
            assert(e.ops.push(Op::Const(n)).drop_last() =~= e.ops);
        },
        MathV::Var(s) => {
            lemma_slot(e.names, 0, s);
            let k = slot(e.names, 0, s);
            let all = with_name(e.names, s);
            assert(all[k] == s);
            assert(vars[k] == env(all[k]));
            assert(e.ops.push(var_op(k)).drop_last() =~= e.ops);
        },
        MathV::Neg(a) => {
            lemma_emitted_value(fl, v, a, e, vars, env);
            let x = emitted(v, a, e);
            assert(x.ops.push(Op::Neg).drop_last() =~= x.ops);
            let pushed = st.push(fl.value(v, a, env));
            assert(pushed.drop_last() =~= st);
        },
        MathV::Bin { op, l, r } => {
            let x = emitted(v, l, e);
            let y = emitted(v, r, x);
            lemma_need(v, l);
            lemma_need(v, r);
            lemma_emitted_names(v, r, x);
            lemma_bound_part(x.names, y.names, vars, env);
            lemma_emitted_value(fl, v, l, e, vars, env);
            lemma_emitted_value(fl, v, r, x, vars, env);
            assert(y.ops.push(op).drop_last() =~= y.ops);
            let a = st.push(fl.value(v, l, env));
            let b = a.push(fl.value(v, r, env));
            assert(b.drop_last() =~= a);
            assert(a.drop_last() =~= st);
        },
    }
}

proof fn lemma_need(v: Seq<MathV>, i: int)
    requires
        is_tree(v),
        0 <= i < v.len(),
    ensures
        need(v, i) >= 1,
    decreases i,
{
    assert(placed(v, i));
    match v[i] {
        MathV::Neg(a) => lemma_need(v, a),
        MathV::Bin { l, r, .. } => {
            lemma_need(v, l);
            lemma_need(v, r);
        },
        _ => {},
    }
}

/// The program of a tree computes the value of its root, where the tree needs no
/// more than the stack holds and the variables hold the values of the names.
pub proof fn lemma_compiled_value(
    fl: FloatsV,
    v: Seq<MathV>,
    vars: Seq<u64>,
    env: spec_fn(Seq<char>) -> u64,
)
    requires
        is_tree(v),
        need(v, v.len() - 1) <= DEPTH,
        bound(compiled(v).names, vars, env),
    ensures
        fl.outcome(compiled(v).ops, vars) == fl.value(v, v.len() - 1, env),
{
    let none = Emitted { ops: seq![], names: seq![] };
    lemma_emitted_value(fl, v, v.len() - 1, none, vars, env);
    assert(fl.stack(none.ops, vars) == Some(Seq::<u64>::empty()));
}

// -------------------------------------------------------------------------- sorting

/// `x` put into an ascending list, behind all that are not greater.
pub open spec fn inserted<A>(s: Seq<A>, x: A, leq: spec_fn(A, A) -> bool) -> Seq<A>
    decreases s.len(),
{
    if s.len() == 0 || leq(s.last(), x) {
        s.push(x)
    } else {
        inserted(s.drop_last(), x, leq).push(s.last())
    }
}

/// A list in ascending order.
pub open spec fn ascending<A>(s: Seq<A>, leq: spec_fn(A, A) -> bool) -> Seq<A>
    decreases s.len(),
{
    if s.len() == 0 {
        seq![]
    } else {
        inserted(ascending(s.drop_last(), leq), s.last(), leq)
    }
}

proof fn lemma_inserted<A>(s: Seq<A>, x: A, leq: spec_fn(A, A) -> bool)
    requires
        total_ordering(leq),
        sorted_by(s, leq),
    ensures
        sorted_by(inserted(s, x, leq), leq),
        inserted(s, x, leq).to_multiset() == s.to_multiset().insert(x),
        inserted(s, x, leq).len() == s.len() + 1,
        forall|y: A| #[trigger] inserted(s, x, leq).contains(y) ==> s.contains(y) || y == x,
    decreases s.len(),
{
    broadcast use vstd::seq_lib::group_to_multiset_ensures;

    let r = inserted(s, x, leq);
    if s.len() == 0 || leq(s.last(), x) {
        assert forall|i: int, j: int| 0 <= i < j < r.len() implies #[trigger] leq(r[i], r[j]) by {
            if j == s.len() && i < s.len() - 1 {
                assert(leq(s[i], s[s.len() - 1]));
                assert(leq(s.last(), x));
            }
        }
        assert forall|y: A| #[trigger] r.contains(y) implies s.contains(y) || y == x by {
            let k = choose|k: int| 0 <= k < r.len() && r[k] == y;
            if k < s.len() {
                assert(s[k] == y);
            }
        }
    } else {
        let t = s.drop_last();
        let z = s.last();
        assert forall|i: int, j: int| 0 <= i < j < t.len() implies #[trigger] leq(t[i], t[j]) by {
            assert(leq(s[i], s[j]));
        }
        lemma_inserted(t, x, leq);
        let q = inserted(t, x, leq);
        assert(leq(x, z) || leq(z, x));
        assert forall|i: int, j: int| 0 <= i < j < r.len() implies #[trigger] leq(r[i], r[j]) by {
            if j < q.len() {
                assert(leq(q[i], q[j]));
            } else {
                assert(q.contains(q[i]));
                if q[i] != x {
                    let k = choose|k: int| 0 <= k < t.len() && t[k] == q[i];
                    assert(leq(s[k], s[s.len() - 1]));
                }
            }
        }
        assert forall|y: A| #[trigger] r.contains(y) implies s.contains(y) || y == x by {
            let k = choose|k: int| 0 <= k < r.len() && r[k] == y;
            if k < q.len() {
                assert(q.contains(y));
                if y != x {
                    let m = choose|m: int| 0 <= m < t.len() && t[m] == y;
                    assert(s[m] == y);
                }
            } else {
                assert(s[s.len() - 1] == y);
            }
        }
        assert(s =~= t.push(z));
        assert(r.to_multiset() =~= s.to_multiset().insert(x));
    }
}

/// A list in ascending order holds the same items, and none is greater than one
/// behind it.
pub proof fn lemma_ascending<A>(s: Seq<A>, leq: spec_fn(A, A) -> bool)
    requires
        total_ordering(leq),
    ensures
        sorted_by(ascending(s, leq), leq),
        ascending(s, leq).to_multiset() == s.to_multiset(),
    decreases s.len(),
{
    broadcast use vstd::seq_lib::group_to_multiset_ensures;

    if s.len() > 0 {
        lemma_ascending(s.drop_last(), leq);
        lemma_inserted(ascending(s.drop_last(), leq), s.last(), leq);
        assert(s =~= s.drop_last().push(s.last()));
    }
}

proof fn lemma_inserted_at<A>(s: Seq<A>, x: A, leq: spec_fn(A, A) -> bool, p: int)
    requires
        0 <= p <= s.len(),
        p > 0 ==> leq(s[p - 1], x),
        forall|i: int| p <= i < s.len() ==> !leq(#[trigger] s[i], x),
    ensures
        inserted(s, x, leq) == s.insert(p, x),
    decreases s.len(),
{
    if p < s.len() {
        let t = s.drop_last();
        assert forall|i: int| p <= i < t.len() implies !leq(#[trigger] t[i], x) by {
            assert(!leq(s[i], x));
        }
        lemma_inserted_at(t, x, leq, p);
        assert(!leq(s[s.len() - 1], x));
        assert(t.insert(p, x).push(s.last()) =~= s.insert(p, x));
    } else {
        assert(s.insert(p, x) =~= s.push(x));
    }
}

/// `a` is not greater than `b`, as bytes.
pub open spec fn byte_order() -> spec_fn(u8, u8) -> bool {
    |a: u8, b: u8| a <= b
}

fn sort_bytes(v: &Vec<u8>) -> (r: Vec<u8>)
    ensures
        r@ == ascending(v@, byte_order()),
{
    let mut r: Vec<u8> = Vec::new();
    let mut i: usize = 0;
    assert(v@.take(0) =~= seq![]);
    while i < v.len()
        invariant
            i <= v@.len(),
            r@ == ascending(v@.take(i as int), byte_order()),
        decreases v@.len() - i,
    {
        let x: u8 = v[i];
        let mut p: usize = r.len();
        while p > 0 && r[p - 1] > x
            invariant
                p <= r@.len(),
                forall|k: int| p <= k < r@.len() ==> !byte_order()(#[trigger] r@[k], x),
            decreases p,
        {
            p -= 1;
        }
        proof {
            lemma_inserted_at(r@, x, byte_order(), p as int);
            assert(v@.take(i + 1).drop_last() =~= v@.take(i as int));
        }
        r.insert(p, x);
        i += 1;
    }
    assert(v@.take(i as int) =~= v@);
    r
}

// ---------------------------------------------------------------------------- terms

/// A summand: the kinds of its factors and of its divisors, in ascending order.
pub struct Term {
    pub num: Vec<u8>,
    pub den: Vec<u8>,
}

/// A [`Term`] as a mathematical value.
#[verifier::ext_equal]
pub struct TermV {
    pub num: Seq<u8>,
    pub den: Seq<u8>,
}

impl View for Term {
    type V = TermV;

    open spec fn view(&self) -> TermV {
        TermV { num: self.num@, den: self.den@ }
    }
}

/// The terms of a list.
pub open spec fn term_views(v: Seq<Term>) -> Seq<TermV> {
    Seq::new(v.len(), |i: int| v[i]@)
}

/// `a` is not greater than `b` in the order of dictionaries, from place `i` on.
pub open spec fn dict_le(a: Seq<u8>, b: Seq<u8>, i: int) -> bool
    decreases a.len() - i,
{
    if i < 0 || i >= a.len() {
        true
    } else if i >= b.len() || a[i] > b[i] {
        false
    } else if a[i] < b[i] {
        true
    } else {
        dict_le(a, b, i + 1)
    }
}

/// The order of terms: by factors, then by divisors.
pub open spec fn term_order() -> spec_fn(TermV, TermV) -> bool {
    |a: TermV, b: TermV| if a.num == b.num { dict_le(a.den, b.den, 0) } else { dict_le(a.num, b.num, 0) }
}

proof fn lemma_dict(a: Seq<u8>, b: Seq<u8>, c: Seq<u8>, i: int)
    requires
        0 <= i,
        i <= a.len(),
        i <= b.len(),
        i <= c.len(),
    ensures
        dict_le(a, a, i),
        dict_le(a, b, i) || dict_le(b, a, i),
        dict_le(a, b, i) && dict_le(b, c, i) ==> dict_le(a, c, i),
        dict_le(a, b, i) && dict_le(b, a, i) ==> a.len() == b.len() && forall|k: int|
            i <= k < a.len() ==> a[k] == b[k],
    decreases a.len() - i,
{
    if i < a.len() {
        lemma_dict(
            a,
            if i < b.len() { b } else { a },
            if i < c.len() { c } else { a },
            i + 1,
        );
        if i < b.len() && i < c.len() {
            lemma_dict(a, b, c, i + 1);
        }
    }
}

/// Terms are totally ordered.
pub proof fn lemma_term_order()
    ensures
        total_ordering(term_order()),
{
    let le = term_order();
    assert forall|a: TermV| #[trigger] le(a, a) by {
        lemma_dict(a.den, a.den, a.den, 0);
    }
    assert forall|a: TermV, b: TermV| #[trigger] le(a, b) && #[trigger] le(b, a) implies a == b by {
        lemma_dict(a.num, b.num, a.num, 0);
        lemma_dict(a.den, b.den, a.den, 0);
        assert(a.num =~= b.num);
        assert(a.den =~= b.den);
    }
    assert forall|a: TermV, b: TermV, c: TermV| #[trigger] le(a, b) && #[trigger] le(b, c) implies le(a, c) by {
        lemma_dict(a.num, b.num, c.num, 0);
        lemma_dict(a.den, b.den, c.den, 0);
        lemma_dict(b.num, c.num, a.num, 0);
        if a.num != b.num && a.num == c.num {
            lemma_dict(a.num, b.num, a.num, 0);
            assert(a.num =~= b.num);
        }
    }
    assert forall|a: TermV, b: TermV| #[trigger] le(a, b) || #[trigger] le(b, a) by {
        lemma_dict(a.num, b.num, a.num, 0);
        lemma_dict(a.den, b.den, a.den, 0);
    }
}

fn bytes_le(a: &Vec<u8>, b: &Vec<u8>) -> (r: bool)
    ensures
        r == dict_le(a@, b@, 0),
{
    let mut i: usize = 0;
    while i < a.len()
        invariant
            i <= a@.len(),
            i <= b@.len(),
            dict_le(a@, b@, 0) == dict_le(a@, b@, i as int),
        decreases a@.len() - i,
    {
        if i >= b.len() || a[i] > b[i] {
            return false;
        }
        if a[i] < b[i] {
            return true;
        }
        i += 1;
    }
    true
}

fn term_le(a: &Term, b: &Term) -> (r: bool)
    ensures
        r == term_order()(a@, b@),
{
    if bytes_eq(a.num.as_slice(), b.num.as_slice()) {
        bytes_le(&a.den, &b.den)
    } else {
        bytes_le(&a.num, &b.num)
    }
}

/// The letter of a node that is not a product, a quotient or a negative.
pub open spec fn tag(n: MathV) -> u8 {
    match n {
        MathV::Num(_) => 0x4e,
        MathV::Var(_) => 0x56,
        MathV::Neg(_) => 0x53,
        MathV::Bin { op, .. } => match op {
            Op::Xor => 0x78,
            Op::And => 0x61,
            Op::Or => 0x6f,
            Op::Shl => 0x4c,
            Op::Shr => 0x52,
            Op::Ushr => 0x55,
            Op::Mod => 0x6d,
            _ => 0x3f,
        },
    }
}

fn leaf_tag(n: &Math) -> (t: u8)
    ensures
        t == tag(n@),
{
    match n {
        Math::Num(_) => 0x4e,
        Math::Var(_) => 0x56,
        Math::Neg(_) => 0x53,
        Math::Bin { op, .. } => match op {
            Op::Xor => 0x78,
            Op::And => 0x61,
            Op::Or => 0x6f,
            Op::Shl => 0x4c,
            Op::Shr => 0x52,
            Op::Ushr => 0x55,
            Op::Mod => 0x6d,
            _ => 0x3f,
        },
    }
}

/// The factors and divisors of the node `i`, behind those there are; a negative
/// counts as a factor of its own.
pub open spec fn factors(v: Seq<MathV>, i: int, t: TermV) -> TermV
    decreases i,
    when 0 <= i < v.len() && is_tree(v)
{
    proof {
        assert(placed(v, i));
    }
    match v[i] {
        MathV::Bin { op, l, r } => if op == Op::Mul {
            factors(v, r, factors(v, l, t))
        } else if op == Op::Div {
            let x = factors(v, l, t);
            let y = factors(v, r, TermV { num: x.den, den: x.num });
            TermV { num: y.den, den: y.num }
        } else {
            TermV { num: t.num.push(tag(v[i])), den: t.den }
        },
        MathV::Neg(a) => factors(v, a, TermV { num: t.num.push(0x53), den: t.den }),
        _ => TermV { num: t.num.push(tag(v[i])), den: t.den },
    }
}

/// The term of the node `i`, taken negatively if `neg`.
pub open spec fn term(v: Seq<MathV>, i: int, neg: bool) -> TermV {
    let t = factors(v, i, TermV { num: seq![], den: seq![] });
    TermV {
        num: ascending(if neg { t.num.push(0x53) } else { t.num }, byte_order()),
        den: ascending(t.den, byte_order()),
    }
}

/// The summands of the node `i`.
pub open spec fn summands(v: Seq<MathV>, i: int, neg: bool) -> Seq<TermV>
    decreases i,
    when 0 <= i < v.len() && is_tree(v)
{
    proof {
        assert(placed(v, i));
    }
    match v[i] {
        MathV::Bin { op, l, r } => if op == Op::Add {
            summands(v, l, neg) + summands(v, r, neg)
        } else if op == Op::Sub {
            summands(v, l, neg) + summands(v, r, !neg)
        } else {
            seq![term(v, i, neg)]
        },
        _ => seq![term(v, i, neg)],
    }
}

/// Two terms that count as one: equal ones, or ones of a number each that differ
/// in sign.
pub open spec fn alike(a: TermV, b: TermV) -> bool {
    ||| a.num == b.num && a.den == b.den
    ||| a.num.len() > 0 && a.num.last() == 0x4e && b.num.len() > 0 && b.num.last() == 0x4e
        && a.num.drop_last() == b.num.drop_last() && a.den == b.den && (a.num.contains(0x53)
        != b.num.contains(0x53))
}

/// The first `n` terms without those that are like the one kept before them.
pub open spec fn distinct(v: Seq<TermV>, n: int) -> Seq<TermV>
    decreases n,
{
    if n <= 0 || n > v.len() {
        seq![]
    } else {
        let kept = distinct(v, n - 1);
        if kept.len() > 0 && alike(v[n - 1], kept.last()) { kept } else { kept.push(v[n - 1]) }
    }
}

/// The kinds of terms of a tree, in order.
pub open spec fn shape(v: Seq<MathV>) -> Seq<TermV> {
    let s = ascending(summands(v, v.len() - 1, false), term_order());
    distinct(s, s.len() as int)
}

fn collect_product(v: &Vec<Math>, i: usize, num: &mut Vec<u8>, den: &mut Vec<u8>)
    requires
        i < v@.len(),
        is_tree(node_views(v@)),
    ensures
        (TermV { num: final(num)@, den: final(den)@ }) == factors(
            node_views(v@),
            i as int,
            TermV { num: old(num)@, den: old(den)@ },
        ),
    decreases i,
{
    let ghost m = node_views(v@);
    assert(placed(m, i as int));
    assert(m[i as int] == v@[i as int]@);
    match &v[i] {
        Math::Bin { op: Op::Mul, l, r } => {
            collect_product(v, *l, num, den);
            collect_product(v, *r, num, den);
        },
        Math::Bin { op: Op::Div, l, r } => {
            collect_product(v, *l, num, den);
            collect_product(v, *r, den, num);
        },
        Math::Neg(a) => {
            num.push(0x53);
            collect_product(v, *a, num, den);
        },
        _ => num.push(leaf_tag(&v[i])),
    }
}

fn collect_sum(v: &Vec<Math>, i: usize, neg: bool, out: &mut Vec<Term>)
    requires
        i < v@.len(),
        is_tree(node_views(v@)),
    ensures
        term_views(final(out)@) == term_views(old(out)@) + summands(node_views(v@), i as int, neg),
    decreases i,
{
    let ghost m = node_views(v@);
    let ghost start = term_views(out@);
    assert(placed(m, i as int));
    assert(m[i as int] == v@[i as int]@);
    match &v[i] {
        Math::Bin { op: Op::Add, l, r } => {
            collect_sum(v, *l, neg, out);
            collect_sum(v, *r, neg, out);
        },
        Math::Bin { op: Op::Sub, l, r } => {
            collect_sum(v, *l, neg, out);
            collect_sum(v, *r, !neg, out);
        },
        _ => {
            let mut num: Vec<u8> = Vec::new();
            let mut den: Vec<u8> = Vec::new();
            assert(num@ =~= seq![] && den@ =~= seq![]);
            collect_product(v, i, &mut num, &mut den);
            if neg {
                num.push(0x53);
            }
            out.push(Term { num: sort_bytes(&num), den: sort_bytes(&den) });
        },
    }
    assert(term_views(out@) =~= start + summands(m, i as int, neg));
}

fn contains_byte(v: &Vec<u8>, b: u8) -> (r: bool)
    ensures
        r == v@.contains(b),
{
    let mut i: usize = 0;
    while i < v.len()
        invariant
            i <= v@.len(),
            forall|j: int| 0 <= j < i ==> v@[j] != b,
        decreases v@.len() - i,
    {
        if v[i] == b {
            return true;
        }
        i += 1;
    }
    false
}

fn same_but_last(a: &Vec<u8>, b: &Vec<u8>) -> (r: bool)
    requires
        a@.len() > 0,
        b@.len() > 0,
    ensures
        r == (a@.drop_last() == b@.drop_last()),
{
    if a.len() != b.len() {
        return false;
    }
    let mut i: usize = 0;
    while i < a.len() - 1
        invariant
            a@.len() == b@.len(),
            a@.len() > 0,
            i <= a@.len() - 1,
            forall|j: int| 0 <= j < i ==> a@[j] == b@[j],
        decreases a@.len() - i,
    {
        if a[i] != b[i] {
            assert(a@.drop_last()[i as int] != b@.drop_last()[i as int]);
            return false;
        }
        i += 1;
    }
    assert(a@.drop_last() =~= b@.drop_last());
    true
}

fn are_alike(a: &Term, b: &Term) -> (r: bool)
    ensures
        r == alike(a@, b@),
{
    if !bytes_eq(a.den.as_slice(), b.den.as_slice()) {
        return false;
    }
    if bytes_eq(a.num.as_slice(), b.num.as_slice()) {
        return true;
    }
    a.num.len() > 0 && b.num.len() > 0 && a.num[a.num.len() - 1] == 0x4e && b.num[b.num.len() - 1]
        == 0x4e && same_but_last(&a.num, &b.num) && contains_byte(&a.num, 0x53) != contains_byte(
        &b.num,
        0x53,
    )
}

fn sort_terms(v: Vec<Term>) -> (r: Vec<Term>)
    ensures
        term_views(r@) == ascending(term_views(v@), term_order()),
{
    let mut rest = v;
    let mut r: Vec<Term> = Vec::new();
    let ghost all = term_views(v@);
    let ghost mut done: int = 0;
    assert(all.take(0) =~= seq![]);
    assert(term_views(r@) =~= seq![]);
    while rest.len() > 0
        invariant
            0 <= done <= all.len(),
            term_views(rest@) == all.skip(done),
            rest@.len() == all.len() - done,
            term_views(r@) == ascending(all.take(done), term_order()),
        decreases rest@.len(),
    {
        let ghost before = rest@;
        let x = rest.remove(0);
        let ghost sorted = term_views(r@);
        assert(x@ == all[done]) by {
            assert(term_views(before)[0] == all.skip(done)[0]);
        }
        let mut p: usize = r.len();
        while p > 0 && !term_le(&r[p - 1], &x)
            invariant
                p <= r@.len(),
                sorted == term_views(r@),
                forall|k: int| p <= k < r@.len() ==> !term_order()(#[trigger] sorted[k], x@),
            decreases p,
        {
            p -= 1;
        }
        proof {
            lemma_inserted_at(sorted, x@, term_order(), p as int);
            assert(all.take(done + 1).drop_last() =~= all.take(done));
        }
        r.insert(p, x);
        proof {
            assert(term_views(r@) =~= sorted.insert(p as int, x@));
            assert forall|k: int| 0 <= k < rest@.len() implies term_views(rest@)[k] == #[trigger] all.skip(
                done + 1,
            )[k] by {
                assert(term_views(before)[k + 1] == all.skip(done)[k + 1]);
            }
            assert(term_views(rest@) =~= all.skip(done + 1));
            done = done + 1;
        }
    }
    assert(all.take(done) =~= all);
    r
}

fn keep_distinct(v: Vec<Term>) -> (r: Vec<Term>)
    ensures
        term_views(r@) == distinct(term_views(v@), v@.len() as int),
{
    let mut rest = v;
    let mut r: Vec<Term> = Vec::new();
    let ghost all = term_views(v@);
    let ghost mut done: int = 0;
    assert(term_views(r@) =~= seq![]);
    while rest.len() > 0
        invariant
            0 <= done <= all.len(),
            term_views(rest@) == all.skip(done),
            rest@.len() == all.len() - done,
            term_views(r@) == distinct(all, done),
        decreases rest@.len(),
    {
        let ghost before = rest@;
        let x = rest.remove(0);
        let ghost kept = term_views(r@);
        assert(x@ == all[done]) by {
            assert(term_views(before)[0] == all.skip(done)[0]);
        }
        assert(kept.len() == r@.len());
        let skip: bool = r.len() > 0 && are_alike(&x, &r[r.len() - 1]);
        if !skip {
            r.push(x);
            assert(term_views(r@) =~= kept.push(x@));
        }
        proof {
            assert forall|k: int| 0 <= k < rest@.len() implies term_views(rest@)[k] == #[trigger] all.skip(
                done + 1,
            )[k] by {
                assert(term_views(before)[k + 1] == all.skip(done)[k + 1]);
            }
            assert(term_views(rest@) =~= all.skip(done + 1));
            done = done + 1;
        }
    }
    r
}

/// The kinds of terms of a tree, and the number of its summands.
pub fn structural_terms(v: &Vec<Math>) -> (r: (Vec<Term>, usize))
    requires
        is_tree(node_views(v@)),
    ensures
        term_views(r.0@) == shape(node_views(v@)),
        r.1 == summands(node_views(v@), v@.len() - 1, false).len(),
{
    let mut terms: Vec<Term> = Vec::new();
    collect_sum(v, v.len() - 1, false, &mut terms);
    let ghost all = summands(node_views(v@), v@.len() - 1, false);
    assert(term_views(terms@) =~= all);
    let raw: usize = terms.len();
    assert(raw == term_views(terms@).len());
    let sorted = sort_terms(terms);
    assert(term_views(sorted@).len() == sorted@.len());
    (keep_distinct(sorted), raw)
}

// --------------------------------------------------------------------------- family

/// A letter that the known family is made of.
pub open spec fn known(c: u8) -> bool {
    c == 0x53 || c == 0x56 || c == 0x4e || c == 0x78 || c == 0x61 || c == 0x6f || c == 0x4c || c
        == 0x52 || c == 0x55 || c == 0x6d
}

/// A term of the known family: known factors, a variable among them, and nothing
/// but numbers below.
pub open spec fn familiar(t: TermV) -> bool {
    &&& forall|i: int| 0 <= i < t.num.len() ==> known(#[trigger] t.num[i])
    &&& forall|i: int| 0 <= i < t.den.len() ==> #[trigger] t.den[i] == 0x4e
    &&& t.num.contains(0x56)
}

/// A term as it is written in a template.
pub open spec fn term_text(t: TermV) -> Seq<u8> {
    t.num + (if t.den.len() > 0 { seq![0x2fu8] + t.den } else { seq![] }) + seq![0x2bu8]
}

/// The template of the first `n` terms.
pub open spec fn template(v: Seq<TermV>, n: int) -> Seq<u8>
    decreases n,
{
    if n <= 0 || n > v.len() { seq![] } else { template(v, n - 1) + term_text(v[n - 1]) }
}

/// The family that a list of terms belongs to, or how far it has drifted.
pub open spec fn family(v: Seq<TermV>, raw: nat) -> Seq<char> {
    if raw >= 4 && forall|i: int| 0 <= i < v.len() ==> familiar(#[trigger] v[i]) {
        "duck-vqd-checksum-v1:sum_of_SVN_products"@
    } else {
        "DRIFT:"@ + decimal(template(v, v.len() as int).len())
    }
}

/// The 64 bit XXH3 hash of a byte string.
pub uninterp spec fn xxh3(b: Seq<u8>) -> u64;

/// `xxhash_rust::xxh3::xxh3_64`: the 64 bit XXH3 hash with seed zero, named by
/// `xxh3`.
#[verifier::external_body]
pub(crate) fn xxh3_64(b: &[u8]) -> (h: u64)
    ensures
        h == xxh3(b@),
{
    xxhash_rust::xxh3::xxh3_64(b)
}

fn is_familiar(t: &Term) -> (r: bool)
    ensures
        r == familiar(t@),
{
    let mut i: usize = 0;
    while i < t.num.len()
        invariant
            i <= t.num@.len(),
            forall|j: int| 0 <= j < i ==> known(#[trigger] t.num@[j]),
        decreases t.num@.len() - i,
    {
        let c: u8 = t.num[i];
        if !(c == 0x53 || c == 0x56 || c == 0x4e || c == 0x78 || c == 0x61 || c == 0x6f || c == 0x4c
            || c == 0x52 || c == 0x55 || c == 0x6d) {
            assert(!known(t@.num[i as int]));
            return false;
        }
        i += 1;
    }
    let mut j: usize = 0;
    while j < t.den.len()
        invariant
            j <= t.den@.len(),
            forall|k: int| 0 <= k < j ==> #[trigger] t.den@[k] == 0x4e,
        decreases t.den@.len() - j,
    {
        if t.den[j] != 0x4e {
            assert(t@.den[j as int] != 0x4e);
            return false;
        }
        j += 1;
    }
    contains_byte(&t.num, 0x56)
}

/// The family of a list of terms, and the hash of its template.
pub fn family_and_template(v: &Vec<Term>, raw: usize) -> (r: (String, u64))
    ensures
        r.0@ == family(term_views(v@), raw as nat),
        r.1 == xxh3(template(term_views(v@), v@.len() as int)),
{
    let ghost m = term_views(v@);
    let mut buf: Vec<u8> = Vec::new();
    let mut known_all: bool = true;
    let mut i: usize = 0;
    assert(buf@ =~= template(m, 0));
    while i < v.len()
        invariant
            i <= v@.len(),
            m == term_views(v@),
            buf@ == template(m, i as int),
            known_all == forall|j: int| 0 <= j < i ==> familiar(#[trigger] m[j]),
        decreases v@.len() - i,
    {
        let ghost before = buf@;
        assert(m[i as int] == v@[i as int]@);
        push_bytes(&mut buf, v[i].num.as_slice());
        if v[i].den.len() > 0 {
            buf.push(0x2f);
            push_bytes(&mut buf, v[i].den.as_slice());
        }
        buf.push(0x2b);
        assert(buf@ =~= before + term_text(m[i as int]));
        if !is_familiar(&v[i]) {
            known_all = false;
        }
        i += 1;
    }
    let hash: u64 = xxh3_64(buf.as_slice());
    if raw >= 4 && known_all {
        (own("duck-vqd-checksum-v1:sum_of_SVN_products"), hash)
    } else {
        (join2("DRIFT:", dec_usize(buf.len()).as_str()), hash)
    }
}

// ----------------------------------------------------------------------- simplifying

/// What simplifying a checksum has shown.
pub struct Report {
    pub raw_ops: usize,
    pub canonical_ops: usize,
    pub template_hash: u64,
    pub family_hash: u64,
    pub family: String,
    pub full_hash: u64,
    pub canonical_sexpr: String,
}

/// A simplified checksum: its program, the names of the program's variables in
/// slot order, and the report.
pub struct SimplifyOut {
    pub program: Program,
    pub slot_symbols: Vec<String>,
    pub report: Report,
}

/// `out` is what simplifying `raw_ops` nodes to the tree `canonical`, written
/// `sexpr`, makes.
pub open spec fn simplified(
    out: SimplifyOut,
    raw_ops: usize,
    canonical: Seq<MathV>,
    sexpr: Seq<char>,
) -> bool {
    let fam = family(shape(canonical), summands(canonical, canonical.len() - 1, false).len());
    &&& out.program.ops@ == compiled(canonical).ops
    &&& out.program.n_vars == compiled(canonical).names.len()
    &&& names_of(out.slot_symbols@) == compiled(canonical).names
    &&& out.report.raw_ops == raw_ops
    &&& out.report.canonical_ops == compiled(canonical).ops.len()
    &&& out.report.template_hash == xxh3(template(shape(canonical), shape(canonical).len() as int))
    &&& out.report.family@ == fam
    &&& out.report.family_hash == xxh3(vstd::utf8::encode_utf8(fam))
    &&& out.report.canonical_sexpr@ == sexpr
    &&& out.report.full_hash == xxh3(vstd::utf8::encode_utf8(sexpr))
}

/// Two nodes that differ at most in the number or the name they hold.
pub open spec fn same_form(a: MathV, b: MathV) -> bool {
    match (a, b) {
        (MathV::Num(_), MathV::Num(_)) => true,
        (MathV::Var(_), MathV::Var(_)) => true,
        _ => a == b,
    }
}

/// Trees that differ at most in their numbers and the names of their variables
/// have one template and one family.
pub proof fn lemma_same_template(
    v: Seq<MathV>,
    w: Seq<MathV>,
    a: SimplifyOut,
    b: SimplifyOut,
    raw_a: usize,
    raw_b: usize,
    text_a: Seq<char>,
    text_b: Seq<char>,
)
    requires
        is_tree(v),
        v.len() == w.len(),
        forall|i: int| 0 <= i < v.len() ==> same_form(#[trigger] v[i], w[i]),
        simplified(a, raw_a, v, text_a),
        simplified(b, raw_b, w, text_b),
    ensures
        a.report.template_hash == b.report.template_hash,
        a.report.family_hash == b.report.family_hash,
        a.report.family@ == b.report.family@,
{
    assert forall|i: int| 0 <= i < w.len() implies #[trigger] placed(w, i) by {
        assert(placed(v, i) && same_form(v[i], w[i]));
    }
    lemma_same_summands(v, w, v.len() - 1, false);
}

proof fn lemma_same_summands(v: Seq<MathV>, w: Seq<MathV>, i: int, neg: bool)
    requires
        is_tree(v),
        is_tree(w),
        v.len() == w.len(),
        forall|j: int| 0 <= j < v.len() ==> same_form(#[trigger] v[j], w[j]),
        0 <= i < v.len(),
    ensures
        summands(v, i, neg) == summands(w, i, neg),
    decreases i,
{
    assert(placed(v, i) && same_form(v[i], w[i]));
    match v[i] {
        MathV::Bin { op, l, r } => if op == Op::Add || op == Op::Sub {
            lemma_same_summands(v, w, l, neg);
            lemma_same_summands(v, w, r, if op == Op::Add { neg } else { !neg });
        } else {
            lemma_same_factors(v, w, i, TermV { num: seq![], den: seq![] });
        },
        _ => lemma_same_factors(v, w, i, TermV { num: seq![], den: seq![] }),
    }
}

proof fn lemma_same_factors(v: Seq<MathV>, w: Seq<MathV>, i: int, t: TermV)
    requires
        is_tree(v),
        is_tree(w),
        v.len() == w.len(),
        forall|j: int| 0 <= j < v.len() ==> same_form(#[trigger] v[j], w[j]),
        0 <= i < v.len(),
    ensures
        factors(v, i, t) == factors(w, i, t),
    decreases i,
{
    assert(placed(v, i) && same_form(v[i], w[i]));
    match v[i] {
        MathV::Bin { op, l, r } => if op == Op::Mul {
            lemma_same_factors(v, w, l, t);
            lemma_same_factors(v, w, r, factors(v, l, t));
        } else if op == Op::Div {
            lemma_same_factors(v, w, l, t);
            let x = factors(v, l, t);
            lemma_same_factors(v, w, r, TermV { num: x.den, den: x.num });
        },
        MathV::Neg(a) => lemma_same_factors(
            v,
            w,
            a,
            TermV { num: t.num.push(0x53), den: t.den },
        ),
        _ => {},
    }
}

/// Compiles and describes the tree that simplifying has led to.
pub fn describe(raw_ops: usize, canonical: &Vec<Math>, sexpr: String) -> (out: SimplifyOut)
    requires
        is_tree(node_views(canonical@)),
    ensures
        simplified(out, raw_ops, node_views(canonical@), sexpr@),
        height(out.program.ops@) == Some(1int),
{
    let mut ops: Vec<Op> = Vec::new();
    let mut names: Vec<String> = Vec::new();
    proof {
        assert(ops@ =~= seq![]);
        assert(names_of(names@) =~= seq![]);
        lemma_emitted_height(
            node_views(canonical@),
            canonical@.len() - 1,
            Emitted { ops: seq![], names: seq![] },
        );
    }
    emit_ops(canonical, canonical.len() - 1, &mut ops, &mut names);
    let (terms, raw_terms) = structural_terms(canonical);
    assert(term_views(terms@).len() == terms@.len());
    let (family, template_hash) = family_and_template(&terms, raw_terms);
    let n_vars: usize = names.len();
    assert(names_of(names@).len() == n_vars);
    let report = Report {
        raw_ops,
        canonical_ops: ops.len(),
        template_hash,
        family_hash: xxh3_64(family.as_str().as_bytes()),
        family,
        full_hash: xxh3_64(sexpr.as_str().as_bytes()),
        canonical_sexpr: sexpr,
    };
    SimplifyOut { program: Program { ops, n_vars }, slot_symbols: names, report }
}

/// A simplifier takes every list of nodes and returns a tree, with its text.
pub open spec fn simplifies<S: Fn(&Vec<Math>) -> (Vec<Math>, String)>(s: S) -> bool {
    &&& forall|v: &Vec<Math>| is_tree(node_views(v@)) ==> #[trigger] call_requires(s, (v,))
    &&& forall|v: &Vec<Math>, r: (Vec<Math>, String)|
        #[trigger] call_ensures(s, (v,), r) ==> is_tree(node_views(r.0@))
}

/// Simplifies a tree by `s`, compiles and describes the outcome.
pub fn simplify<S: Fn(&Vec<Math>) -> (Vec<Math>, String)>(v: &Vec<Math>, s: &S) -> (out: SimplifyOut)
    requires
        simplifies(*s),
        is_tree(node_views(v@)),
    ensures
        height(out.program.ops@) == Some(1int),
        exists|r: (Vec<Math>, String)| #[trigger]
            call_ensures(*s, (v,), r) && simplified(
                out,
                v@.len() as usize,
                node_views(r.0@),
                r.1@,
            ),
{
    let (canonical, sexpr) = s(v);
    describe(v.len(), &canonical, sexpr)
}

// ---------------------------------------------------------------------------- names

/// The bits of ten to the power of nine.
pub const E9: u64 = 0x41cd_cd65_0000_0000;

impl FloatsV {
    /// The name of the variable for a looked up index: in hexadecimal for whole
    /// numbers from zero to below a thousand million.
    pub open spec fn var_name(&self, arg: u64) -> Seq<char> {
        seq!['a'] + if is_finite(arg) && is_integral(arg) && num_le(0, arg) && num_lt(arg, E9) {
            digits(int64_of(arg) as nat, 16)
        } else {
            (self.shown)(arg)
        }
    }
}

/// The name of the variable for a looked up index.
pub fn var_name_for_arg<F: FloatOps>(arg: u64, fl: &F) -> (s: String)
    requires
        fl.ok(),
    ensures
        s@ == fl.model().var_name(arg),
{
    let mut s = String::new();
    s.push('a');
    if finite(arg) && integral(arg) && less_eq(0, arg) && less(arg, E9) {
        let n: i64 = to_i64(arg);
        assert(n >= 0) by {
            if arg >= SIGN {
                lemma_pow2_pos(1074);
                assert(magnitude(arg) == 0);
                assert(0nat / pow2(1074) == 0) by (nonlinear_arith)
                    requires
                        pow2(1074) > 0,
                ;
            }
        }
        s.push_str(hex_u64(n as u64).as_str());
    } else {
        s.push_str(fl.write(arg).as_str());
    }
    assert(s@ =~= fl.model().var_name(arg));
    s
}

// ------------------------------------------------------------------ constant folding

/// Folds constants while a checksum is being simplified.
#[derive(Clone, Copy, Debug)]
pub struct ConstantFold;

impl FloatsV {
    /// The value that folding gives an operation of two constants. The shifts work on
    /// sixty-four bits here: what leaves the low thirty-two is kept.
    pub open spec fn folded(&self, op: Op, x: u64, y: u64) -> u64 {
        let s = uint32_of(y) % 32;
        match op {
            Op::Shl => bits_of_int(((int32_of(x) as i64) << s) as int) as u64,
            Op::Ushr => bits_of_nat(((int32_of(x) as i64 as u64) >> s) as nat) as u64,
            _ => self.apply(op, x, y),
        }
    }

    /// What is known of a node, given what is known of its operands.
    pub open spec fn known(&self, node: MathV, a: Option<u64>, b: Option<u64>) -> Option<u64> {
        match node {
            MathV::Num(n) => Some(n),
            MathV::Var(_) => None,
            MathV::Neg(_) => match a {
                Some(x) => Some(crate::jsnum::negated(x)),
                None => None,
            },
            MathV::Bin { op, .. } => match (a, b) {
                (Some(x), Some(y)) => Some(self.folded(op, x, y)),
                _ => None,
            },
        }
    }
}

impl ConstantFold {
    /// What is known of a node, given what is known of its operands.
    pub fn make<F: FloatOps>(
        &self,
        node: &Math,
        a: Option<u64>,
        b: Option<u64>,
        fl: &F,
    ) -> (r: Option<u64>)
        requires
            fl.ok(),
        ensures
            r == fl.model().known(node@, a, b),
    {
        match node {
            Math::Num(n) => Some(*n),
            Math::Var(_) => None,
            Math::Neg(_) => match a {
                Some(x) => Some(negate(x)),
                None => None,
            },
            Math::Bin { op, .. } => match (a, b) {
                (Some(x), Some(y)) => Some(fold_pair(*op, x, y, fl)),
                _ => None,
            },
        }
    }
}

fn fold_pair<F: FloatOps>(op: Op, x: u64, y: u64, fl: &F) -> (r: u64)
    requires
        fl.ok(),
    ensures
        r == fl.model().folded(op, x, y),
{
    let s: u32 = to_uint32(y) % 32;
    match op {
        Op::Shl => from_i64((to_int32(x) as i64) << s),
        Op::Ushr => from_u64((to_int32(x) as i64 as u64) >> s),
        _ => apply(op, x, y, fl),
    }
}

/// Folding agrees with running a program, but for the two shifts that can leave the
/// low thirty-two bits.
pub proof fn lemma_folded(fl: FloatsV, op: Op, x: u64, y: u64)
    requires
        op != Op::Shl,
        op != Op::Ushr || int32_of(x) >= 0,
    ensures
        fl.folded(op, x, y) == fl.apply(op, x, y),
{
    if op == Op::Ushr {
        let s = uint32_of(y) % 32;
        let n = int32_of(x);
        let u = uint32_of(x);
        assert(u == n as u32);
        assert((n as i64 as u64) >> s == (n as u32) >> s) by (bit_vector)
            requires
                n >= 0,
                s < 32,
        ;
    }
}

} // verus!
