//! Walking a folded tree comes to everything that stands in it.
use vstd::prelude::*;

#[allow(unused_imports)]
use crate::pipeline::sx::{nodes, nodes_all, nodes_fields, nodes_of, nodes_opt, SxV};

verus! {

/// `y` is a part of `x`: an operand, an argument, an element, a value or a statement of
/// it.
pub open spec fn part_of(y: SxV, x: SxV) -> bool {
    match x {
        SxV::Member { obj, .. } => y == *obj,
        SxV::Index { obj, idx } => y == *obj || y == *idx,
        SxV::Call { callee, args } => y == *callee || args.contains(y),
        SxV::New { callee, args } => y == *callee || args.contains(y),
        SxV::Bin { l, r, .. } => y == *l || y == *r,
        SxV::Un { a, .. } => y == *a,
        SxV::Log { l, r, .. } => y == *l || y == *r,
        SxV::Cond { t, c, a } => y == *t || y == *c || y == *a,
        SxV::Arr(v) => v.contains(y),
        SxV::Obj(v) => exists|i: int| 0 <= i < v.len() && y == (#[trigger] v[i]).1,
        SxV::Fn { body, .. } => body.contains(y),
        SxV::Class { super_, .. } => super_ == Some(Box::new(y)),
        SxV::Sequence(v) => v.contains(y),
        SxV::Block(v) => v.contains(y),
        SxV::Var { value, .. } => y == *value,
        SxV::Assign { target, value, .. } => y == *target || y == *value,
        SxV::If { t, c, a } => y == *t || c.contains(y) || a.contains(y),
        SxV::For { init, t, u, body } => init == Some(Box::new(y)) || t == Some(Box::new(y)) || u
            == Some(Box::new(y)) || body.contains(y),
        SxV::While { t, body } => y == *t || body.contains(y),
        SxV::Try { body, handler, fin } => body.contains(y) || (handler is Some && (
        handler->0).1.contains(y)) || fin.contains(y),
        SxV::Ret(v) => v == Some(Box::new(y)),
        SxV::Throw(v) => y == *v,
        _ => false,
    }
}

/// What two lists hold together is what one of them holds.
pub proof fn lemma_in_sum<T>(a: Seq<T>, b: Seq<T>, x: T)
    ensures
        (a + b).contains(x) <==> a.contains(x) || b.contains(x),
{
    if a.contains(x) {
        let i = choose|i: int| 0 <= i < a.len() && a[i] == x;
        assert((a + b)[i] == x);
    }
    if b.contains(x) {
        let i = choose|i: int| 0 <= i < b.len() && b[i] == x;
        assert((a + b)[a.len() + i] == x);
    }
    if (a + b).contains(x) {
        let i = choose|i: int| 0 <= i < (a + b).len() && (a + b)[i] == x;
        if i < a.len() {
            assert(a[i] == x);
        } else {
            assert(b[i - a.len()] == x);
        }
    }
}

/// `z` is found in one of the first `n` trees.
pub open spec fn in_one(v: Seq<SxV>, n: int, z: SxV) -> bool {
    exists|i: int| 0 <= i < n && nodes(#[trigger] v[i]).contains(z)
}

proof fn lemma_in_list(v: Seq<SxV>, n: int, z: SxV)
    requires
        0 <= n <= v.len(),
    ensures
        nodes_all(v, n).contains(z) <==> in_one(v, n, z),
    decreases n,
{
    if n > 0 {
        lemma_in_list(v, n - 1, z);
        lemma_in_sum(nodes_all(v, n - 1), nodes(v[n - 1]), z);
        if in_one(v, n - 1, z) {
            let i = choose|i: int| 0 <= i < n - 1 && nodes(#[trigger] v[i]).contains(z);
            assert(0 <= i < n && nodes(v[i]).contains(z));
        }
    }
}

proof fn lemma_in_fields(v: Seq<(Seq<char>, SxV)>, n: int, z: SxV)
    requires
        0 <= n <= v.len(),
    ensures
        nodes_fields(v, n).contains(z) <==> exists|i: int|
            0 <= i < n && nodes((#[trigger] v[i]).1).contains(z),
    decreases n,
{
    if n > 0 {
        lemma_in_fields(v, n - 1, z);
        lemma_in_sum(nodes_fields(v, n - 1), nodes(v[n - 1].1), z);
        if exists|i: int| 0 <= i < n - 1 && nodes((#[trigger] v[i]).1).contains(z) {
            let i = choose|i: int| 0 <= i < n - 1 && nodes((#[trigger] v[i]).1).contains(z);
            assert(0 <= i < n && nodes(v[i].1).contains(z));
        }
    }
}

proof fn lemma_list_part(v: Seq<SxV>, z: SxV)
    ensures
        nodes_all(v, v.len() as int).contains(z) <==> exists|y: SxV| #[trigger] v.contains(y)
            && nodes(y).contains(z),
{
    lemma_in_list(v, v.len() as int, z);
    if in_one(v, v.len() as int, z) {
        let i = choose|i: int| 0 <= i < v.len() && nodes(#[trigger] v[i]).contains(z);
        assert(v.contains(v[i]));
    }
    if exists|y: SxV| #[trigger] v.contains(y) && nodes(y).contains(z) {
        let y = choose|y: SxV| #[trigger] v.contains(y) && nodes(y).contains(z);
        let i = choose|i: int| 0 <= i < v.len() && v[i] == y;
        assert(nodes(v[i]).contains(z));
    }
}

/// `z` is found in a part of `x`.
pub open spec fn in_a_part(z: SxV, x: SxV) -> bool {
    exists|y: SxV| #[trigger] part_of(y, x) && nodes(y).contains(z)
}

proof fn lemma_witness(y: SxV, z: SxV, x: SxV)
    requires
        part_of(y, x),
        nodes(y).contains(z),
    ensures
        in_a_part(z, x),
{
}

/// What is found in a list of `x` that has only parts of it is found in a part.
proof fn lemma_list_in_part(v: Seq<SxV>, z: SxV, x: SxV)
    requires
        forall|y: SxV| #[trigger] v.contains(y) ==> part_of(y, x),
        nodes_all(v, v.len() as int).contains(z),
    ensures
        in_a_part(z, x),
{
    lemma_list_part(v, z);
    let y = choose|y: SxV| #[trigger] v.contains(y) && nodes(y).contains(z);
    lemma_witness(y, z, x);
}

/// What stands behind the tree itself in its walk.
spec fn tail_of(x: SxV) -> Seq<SxV> {
    nodes(x).subrange(1, nodes(x).len() as int)
}

proof fn lemma_tail(x: SxV, z: SxV)
    requires
        z != x,
    ensures
        nodes(x).contains(z) <==> tail_of(x).contains(z),
        nodes(x) == seq![x] + tail_of(x),
{
    assert(nodes(x)[0] == x);
    assert(nodes(x) =~= seq![x] + tail_of(x));
    lemma_in_sum(seq![x], tail_of(x), z);
    assert(!seq![x].contains(z)) by {
        if seq![x].contains(z) {
            let i = choose|i: int| 0 <= i < 1 && seq![x][i] == z;
        }
    }
}

#[verifier::rlimit(60)]
proof fn lemma_walk_down(x: SxV, z: SxV)
    ensures
        nodes(x).contains(z) ==> z == x || in_a_part(z, x),
{
    if nodes(x).contains(z) && z != x {
        lemma_tail(x, z);
        match x {
            SxV::Member { obj, .. } => {
                assert(tail_of(x) =~= nodes(*obj));
                if nodes(*obj).contains(z) {
                    lemma_witness(*obj, z, x);
                }
            },
            SxV::Un { a, .. } => {
                assert(tail_of(x) =~= nodes(*a));
                if nodes(*a).contains(z) {
                    lemma_witness(*a, z, x);
                }
            },
            SxV::Throw(v) => {
                assert(tail_of(x) =~= nodes(*v));
                if nodes(*v).contains(z) {
                    lemma_witness(*v, z, x);
                }
            },
            SxV::Var { value, .. } => {
                assert(tail_of(x) =~= nodes(*value));
                if nodes(*value).contains(z) {
                    lemma_witness(*value, z, x);
                }
            },
            SxV::Ret(v) => {
                assert(tail_of(x) =~= nodes_opt(v));
                if nodes_opt(v).contains(z) {
                    lemma_witness(*v->0, z, x);
                }
            },
            SxV::Index { obj, idx } => {
                assert(tail_of(x) =~= nodes(*obj) + nodes(*idx));
                lemma_in_sum(nodes(*obj), nodes(*idx), z);
                if nodes(*obj).contains(z) {
                    lemma_witness(*obj, z, x);
                }
                if nodes(*idx).contains(z) {
                    lemma_witness(*idx, z, x);
                }
            },
            SxV::Call { callee, args } => {
                assert(tail_of(x) =~= nodes(*callee) + nodes_all(args, args.len() as int));
                lemma_in_sum(nodes(*callee), nodes_all(args, args.len() as int), z);
                if nodes(*callee).contains(z) {
                    lemma_witness(*callee, z, x);
                }
                if nodes_all(args, args.len() as int).contains(z) {
                    lemma_list_in_part(args, z, x);
                }
            },
            SxV::New { callee, args } => {
                assert(tail_of(x) =~= nodes(*callee) + nodes_all(args, args.len() as int));
                lemma_in_sum(nodes(*callee), nodes_all(args, args.len() as int), z);
                if nodes(*callee).contains(z) {
                    lemma_witness(*callee, z, x);
                }
                if nodes_all(args, args.len() as int).contains(z) {
                    lemma_list_in_part(args, z, x);
                }
            },
            SxV::Bin { l, r, .. } => {
                assert(tail_of(x) =~= nodes(*l) + nodes(*r));
                lemma_in_sum(nodes(*l), nodes(*r), z);
                if nodes(*l).contains(z) {
                    lemma_witness(*l, z, x);
                }
                if nodes(*r).contains(z) {
                    lemma_witness(*r, z, x);
                }
            },
            SxV::Log { l, r, .. } => {
                assert(tail_of(x) =~= nodes(*l) + nodes(*r));
                lemma_in_sum(nodes(*l), nodes(*r), z);
                if nodes(*l).contains(z) {
                    lemma_witness(*l, z, x);
                }
                if nodes(*r).contains(z) {
                    lemma_witness(*r, z, x);
                }
            },
            SxV::Cond { t, c, a } => {
                assert(tail_of(x) =~= nodes(*t) + nodes(*c) + nodes(*a));
                lemma_in_sum(nodes(*t), nodes(*c), z);
                lemma_in_sum(nodes(*t) + nodes(*c), nodes(*a), z);
                if nodes(*t).contains(z) {
                    lemma_witness(*t, z, x);
                }
                if nodes(*c).contains(z) {
                    lemma_witness(*c, z, x);
                }
                if nodes(*a).contains(z) {
                    lemma_witness(*a, z, x);
                }
            },
            SxV::Arr(v) => {
                assert(tail_of(x) =~= nodes_all(v, v.len() as int));
                if nodes_all(v, v.len() as int).contains(z) {
                    lemma_list_in_part(v, z, x);
                }
            },
            SxV::Sequence(v) => {
                assert(tail_of(x) =~= nodes_all(v, v.len() as int));
                if nodes_all(v, v.len() as int).contains(z) {
                    lemma_list_in_part(v, z, x);
                }
            },
            SxV::Block(v) => {
                assert(tail_of(x) =~= nodes_all(v, v.len() as int));
                if nodes_all(v, v.len() as int).contains(z) {
                    lemma_list_in_part(v, z, x);
                }
            },
            SxV::Obj(v) => {
                assert(tail_of(x) =~= nodes_fields(v, v.len() as int));
                lemma_in_fields(v, v.len() as int, z);
                let i = choose|i: int| 0 <= i < v.len() && nodes((#[trigger] v[i]).1).contains(z);
                lemma_witness(v[i].1, z, x);
            },
            SxV::Fn { body, .. } => {
                assert(tail_of(x) =~= nodes_all(body, body.len() as int));
                if nodes_all(body, body.len() as int).contains(z) {
                    lemma_list_in_part(body, z, x);
                }
            },
            SxV::Class { super_, .. } => {
                assert(tail_of(x) =~= nodes_opt(super_));
                if nodes_opt(super_).contains(z) {
                    lemma_witness(*super_->0, z, x);
                }
            },
            SxV::Assign { target, value, .. } => {
                assert(tail_of(x) =~= nodes(*target) + nodes(*value));
                lemma_in_sum(nodes(*target), nodes(*value), z);
                if nodes(*target).contains(z) {
                    lemma_witness(*target, z, x);
                }
                if nodes(*value).contains(z) {
                    lemma_witness(*value, z, x);
                }
            },
            SxV::If { t, c, a } => {
                assert(tail_of(x) =~= nodes(*t) + nodes_all(c, c.len() as int) + nodes_all(a, a.len() as int));
                lemma_in_sum(nodes(*t), nodes_all(c, c.len() as int), z);
                lemma_in_sum(nodes(*t) + nodes_all(c, c.len() as int), nodes_all(a, a.len() as int), z);
                if nodes(*t).contains(z) {
                    lemma_witness(*t, z, x);
                }
                if nodes_all(c, c.len() as int).contains(z) {
                    lemma_list_in_part(c, z, x);
                }
                if nodes_all(a, a.len() as int).contains(z) {
                    lemma_list_in_part(a, z, x);
                }
            },
            SxV::For { init, t, u, body } => {
                assert(tail_of(x) =~= nodes_opt(init) + nodes_opt(t) + nodes_opt(u) + nodes_all(body, body.len() as int));
                lemma_in_sum(nodes_opt(init), nodes_opt(t), z);
                lemma_in_sum(nodes_opt(init) + nodes_opt(t), nodes_opt(u), z);
                lemma_in_sum(nodes_opt(init) + nodes_opt(t) + nodes_opt(u), nodes_all(body, body.len() as int), z);
                if nodes_opt(init).contains(z) {
                    lemma_witness(*init->0, z, x);
                }
                if nodes_opt(t).contains(z) {
                    lemma_witness(*t->0, z, x);
                }
                if nodes_opt(u).contains(z) {
                    lemma_witness(*u->0, z, x);
                }
                if nodes_all(body, body.len() as int).contains(z) {
                    lemma_list_in_part(body, z, x);
                }
            },
            SxV::While { t, body } => {
                assert(tail_of(x) =~= nodes(*t) + nodes_all(body, body.len() as int));
                lemma_in_sum(nodes(*t), nodes_all(body, body.len() as int), z);
                if nodes(*t).contains(z) {
                    lemma_witness(*t, z, x);
                }
                if nodes_all(body, body.len() as int).contains(z) {
                    lemma_list_in_part(body, z, x);
                }
            },
            SxV::Try { body, handler, fin } => {
                assert(tail_of(x) =~= nodes_all(body, body.len() as int) + (match handler { Some(h) => nodes_all(h.1, h.1.len() as int), None => seq![] }) + nodes_all(fin, fin.len() as int));
                lemma_in_sum(nodes_all(body, body.len() as int), (match handler { Some(h) => nodes_all(h.1, h.1.len() as int), None => seq![] }), z);
                lemma_in_sum(nodes_all(body, body.len() as int) + (match handler { Some(h) => nodes_all(h.1, h.1.len() as int), None => seq![] }), nodes_all(fin, fin.len() as int), z);
                if nodes_all(body, body.len() as int).contains(z) {
                    lemma_list_in_part(body, z, x);
                }
                if let Some(h) = handler {
                    if nodes_all(h.1, h.1.len() as int).contains(z) {
                        lemma_list_in_part(h.1, z, x);
                    }
                }
                if nodes_all(fin, fin.len() as int).contains(z) {
                    lemma_list_in_part(fin, z, x);
                }
            },
            _ => {},
        }
    }
}

#[verifier::rlimit(60)]
proof fn lemma_walk_up(x: SxV, z: SxV)
    ensures
        z == x || in_a_part(z, x) ==> nodes(x).contains(z),
{
    assert(nodes(x)[0] == x);
    if z != x && in_a_part(z, x) {
        let y = choose|y: SxV| #[trigger] part_of(y, x) && nodes(y).contains(z);
        lemma_tail(x, z);
        match x {
            SxV::Member { obj, .. } => {
                assert(tail_of(x) =~= nodes(*obj));
            },
            SxV::Un { a, .. } => {
                assert(tail_of(x) =~= nodes(*a));
            },
            SxV::Throw(v) => {
                assert(tail_of(x) =~= nodes(*v));
            },
            SxV::Var { value, .. } => {
                assert(tail_of(x) =~= nodes(*value));
            },
            SxV::Ret(v) => {
                assert(tail_of(x) =~= nodes_opt(v));
            },
            SxV::Index { obj, idx } => {
                assert(tail_of(x) =~= nodes(*obj) + nodes(*idx));
                lemma_in_sum(nodes(*obj), nodes(*idx), z);
            },
            SxV::Call { callee, args } => {
                assert(tail_of(x) =~= nodes(*callee) + nodes_all(args, args.len() as int));
                lemma_in_sum(nodes(*callee), nodes_all(args, args.len() as int), z);
                lemma_list_part(args, z);
            },
            SxV::New { callee, args } => {
                assert(tail_of(x) =~= nodes(*callee) + nodes_all(args, args.len() as int));
                lemma_in_sum(nodes(*callee), nodes_all(args, args.len() as int), z);
                lemma_list_part(args, z);
            },
            SxV::Bin { l, r, .. } => {
                assert(tail_of(x) =~= nodes(*l) + nodes(*r));
                lemma_in_sum(nodes(*l), nodes(*r), z);
            },
            SxV::Log { l, r, .. } => {
                assert(tail_of(x) =~= nodes(*l) + nodes(*r));
                lemma_in_sum(nodes(*l), nodes(*r), z);
            },
            SxV::Cond { t, c, a } => {
                assert(tail_of(x) =~= nodes(*t) + nodes(*c) + nodes(*a));
                lemma_in_sum(nodes(*t), nodes(*c), z);
                lemma_in_sum(nodes(*t) + nodes(*c), nodes(*a), z);
            },
            SxV::Arr(v) => {
                assert(tail_of(x) =~= nodes_all(v, v.len() as int));
                lemma_list_part(v, z);
            },
            SxV::Sequence(v) => {
                assert(tail_of(x) =~= nodes_all(v, v.len() as int));
                lemma_list_part(v, z);
            },
            SxV::Block(v) => {
                assert(tail_of(x) =~= nodes_all(v, v.len() as int));
                lemma_list_part(v, z);
            },
            SxV::Obj(v) => {
                assert(tail_of(x) =~= nodes_fields(v, v.len() as int));
                lemma_in_fields(v, v.len() as int, z);
                let i = choose|i: int| 0 <= i < v.len() && y == (#[trigger] v[i]).1;
                assert(nodes(v[i].1).contains(z));
            },
            SxV::Fn { body, .. } => {
                assert(tail_of(x) =~= nodes_all(body, body.len() as int));
                lemma_list_part(body, z);
            },
            SxV::Class { super_, .. } => {
                assert(tail_of(x) =~= nodes_opt(super_));
            },
            SxV::Assign { target, value, .. } => {
                assert(tail_of(x) =~= nodes(*target) + nodes(*value));
                lemma_in_sum(nodes(*target), nodes(*value), z);
            },
            SxV::If { t, c, a } => {
                assert(tail_of(x) =~= nodes(*t) + nodes_all(c, c.len() as int) + nodes_all(a, a.len() as int));
                lemma_in_sum(nodes(*t), nodes_all(c, c.len() as int), z);
                lemma_in_sum(nodes(*t) + nodes_all(c, c.len() as int), nodes_all(a, a.len() as int), z);
                lemma_list_part(c, z);
                lemma_list_part(a, z);
            },
            SxV::For { init, t, u, body } => {
                assert(tail_of(x) =~= nodes_opt(init) + nodes_opt(t) + nodes_opt(u) + nodes_all(body, body.len() as int));
                lemma_in_sum(nodes_opt(init), nodes_opt(t), z);
                lemma_in_sum(nodes_opt(init) + nodes_opt(t), nodes_opt(u), z);
                lemma_in_sum(nodes_opt(init) + nodes_opt(t) + nodes_opt(u), nodes_all(body, body.len() as int), z);
                lemma_list_part(body, z);
            },
            SxV::While { t, body } => {
                assert(tail_of(x) =~= nodes(*t) + nodes_all(body, body.len() as int));
                lemma_in_sum(nodes(*t), nodes_all(body, body.len() as int), z);
                lemma_list_part(body, z);
            },
            SxV::Try { body, handler, fin } => {
                assert(tail_of(x) =~= nodes_all(body, body.len() as int) + (match handler { Some(h) => nodes_all(h.1, h.1.len() as int), None => seq![] }) + nodes_all(fin, fin.len() as int));
                lemma_in_sum(nodes_all(body, body.len() as int), (match handler { Some(h) => nodes_all(h.1, h.1.len() as int), None => seq![] }), z);
                lemma_in_sum(nodes_all(body, body.len() as int) + (match handler { Some(h) => nodes_all(h.1, h.1.len() as int), None => seq![] }), nodes_all(fin, fin.len() as int), z);
                lemma_list_part(body, z);
                if let Some(h) = handler {
                    lemma_list_part(h.1, z);
                }
                lemma_list_part(fin, z);
            },
            _ => {},
        }
    }
}

/// A walk through a tree comes to the tree itself first, to everything that a walk
/// through one of its parts comes to, and to nothing else.
#[verifier::rlimit(60)]
pub proof fn lemma_walk(x: SxV, z: SxV)
    ensures
        nodes(x)[0] == x,
        nodes(x).contains(x),
        nodes(x).contains(z) <==> z == x || in_a_part(z, x),
{
    assert(nodes(x)[0] == x);
    lemma_walk_down(x, z);
    lemma_walk_up(x, z);
}


proof fn lemma_walk_list(a: Seq<SxV>, b: Seq<SxV>, n: int)
    requires
        0 <= n <= b.len(),
    ensures
        nodes_all(a + b, a.len() + n) == nodes_all(a, a.len() as int) + nodes_all(b, n),
    decreases n,
{
    if n > 0 {
        lemma_walk_list(a, b, n - 1);
        assert((a + b)[a.len() + n - 1] == b[n - 1]);
        assert(nodes_all(a + b, a.len() + n) =~= nodes_all(a, a.len() as int) + nodes_all(b, n));
    } else {
        lemma_walk_prefix(a, b, a.len() as int);
        assert(nodes_all(a, a.len() as int) + nodes_all(b, 0) =~= nodes_all(a, a.len() as int));
    }
}

proof fn lemma_walk_prefix(a: Seq<SxV>, b: Seq<SxV>, n: int)
    requires
        0 <= n <= a.len(),
    ensures
        nodes_all(a + b, n) == nodes_all(a, n),
    decreases n,
{
    if n > 0 {
        lemma_walk_prefix(a, b, n - 1);
        assert((a + b)[n - 1] == a[n - 1]);
    }
}

/// A walk through a list comes to its trees in their order, each one whole.
pub proof fn lemma_walk_order(a: Seq<SxV>, b: Seq<SxV>, x: SxV)
    ensures
        nodes_of(a + b) == nodes_of(a) + nodes_of(b),
        nodes_of(seq![x]) == nodes(x),
        nodes(SxV::Block(a)) == seq![SxV::Block(a)] + nodes_of(a),
{
    lemma_walk_list(a, b, b.len() as int);
    assert(nodes_all(seq![x], 0) =~= seq![]);
    assert(nodes_all(seq![x], 1) =~= nodes(x));
}

/// The parts of a node are walked through in the order in which they are written.
pub proof fn lemma_part_order(x: SxV)
    ensures
        x is Member ==> nodes(x) =~= seq![x] + nodes(*x->Member_obj),
        x is Index ==> nodes(x) =~= seq![x] + nodes(*x->Index_obj) + nodes(*x->Index_idx),
        x is Call ==> nodes(x) =~= seq![x] + nodes(*x->Call_callee) + nodes_of(x->Call_args),
        x is New ==> nodes(x) =~= seq![x] + nodes(*x->New_callee) + nodes_of(x->New_args),
        x is Bin ==> nodes(x) =~= seq![x] + nodes(*x->Bin_l) + nodes(*x->Bin_r),
        x is Log ==> nodes(x) =~= seq![x] + nodes(*x->Log_l) + nodes(*x->Log_r),
        x is Cond ==> nodes(x) =~= seq![x] + nodes(*x->Cond_t) + nodes(*x->Cond_c) + nodes(
            *x->Cond_a,
        ),
        x is Arr ==> nodes(x) =~= seq![x] + nodes_of(x->Arr_0),
        x is Sequence ==> nodes(x) =~= seq![x] + nodes_of(x->Sequence_0),
        x is Block ==> nodes(x) =~= seq![x] + nodes_of(x->Block_0),
        x is Fn ==> nodes(x) =~= seq![x] + nodes_of(x->Fn_body),
        x is Assign ==> nodes(x) =~= seq![x] + nodes(*x->Assign_target) + nodes(*x->Assign_value),
        x is If ==> nodes(x) =~= seq![x] + nodes(*x->If_t) + nodes_of(x->If_c) + nodes_of(x->If_a),
        x is While ==> nodes(x) =~= seq![x] + nodes(*x->While_t) + nodes_of(x->While_body),
        x is Try && x->Try_handler is Some ==> nodes(x) =~= seq![x] + nodes_of(x->Try_body)
            + nodes_of((x->Try_handler->0).1) + nodes_of(x->Try_fin),
{
}

} // verus!
