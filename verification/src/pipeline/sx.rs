//! Expressions and statements after constants have been folded in.
use vstd::prelude::*;

use crate::text::{group_concat, own};

verus! {

/// A folded expression or statement.
pub enum Sx {
    /// A number, as the bits of its binary64 value.
    Num(u64),
    Str(String),
    Bool(bool),
    Null,
    Undef,
    Ref(String),
    Member { obj: Box<Sx>, prop: String },
    Index { obj: Box<Sx>, idx: Box<Sx> },
    Call { callee: Box<Sx>, args: Vec<Sx> },
    New { callee: Box<Sx>, args: Vec<Sx> },
    Bin { op: &'static str, l: Box<Sx>, r: Box<Sx> },
    Un { op: &'static str, a: Box<Sx> },
    Log { op: &'static str, l: Box<Sx>, r: Box<Sx> },
    Cond { t: Box<Sx>, c: Box<Sx>, a: Box<Sx> },
    Arr(Vec<Sx>),
    Obj(Vec<(String, Sx)>),
    Fn { params: Vec<String>, body: Vec<Sx>, arrow: bool },
    Class { name: String, super_: Option<Box<Sx>> },
    Sequence(Vec<Sx>),
    Block(Vec<Sx>),
    Var { name: String, value: Box<Sx> },
    Assign { target: Box<Sx>, op: &'static str, value: Box<Sx> },
    If { t: Box<Sx>, c: Vec<Sx>, a: Vec<Sx> },
    For { init: Option<Box<Sx>>, t: Option<Box<Sx>>, u: Option<Box<Sx>>, body: Vec<Sx> },
    While { t: Box<Sx>, body: Vec<Sx> },
    Try { body: Vec<Sx>, handler: Option<(String, Vec<Sx>)>, fin: Vec<Sx> },
    Ret(Option<Box<Sx>>),
    Throw(Box<Sx>),
    Break,
    Continue,
    Empty,
}

/// An [`Sx`] as a mathematical tree.
pub enum SxV {
    Num(u64),
    Str(Seq<char>),
    Bool(bool),
    Null,
    Undef,
    Ref(Seq<char>),
    Member { obj: Box<SxV>, prop: Seq<char> },
    Index { obj: Box<SxV>, idx: Box<SxV> },
    Call { callee: Box<SxV>, args: Seq<SxV> },
    New { callee: Box<SxV>, args: Seq<SxV> },
    Bin { op: Seq<char>, l: Box<SxV>, r: Box<SxV> },
    Un { op: Seq<char>, a: Box<SxV> },
    Log { op: Seq<char>, l: Box<SxV>, r: Box<SxV> },
    Cond { t: Box<SxV>, c: Box<SxV>, a: Box<SxV> },
    Arr(Seq<SxV>),
    Obj(Seq<(Seq<char>, SxV)>),
    Fn { params: Seq<Seq<char>>, body: Seq<SxV>, arrow: bool },
    Class { name: Seq<char>, super_: Option<Box<SxV>> },
    Sequence(Seq<SxV>),
    Block(Seq<SxV>),
    Var { name: Seq<char>, value: Box<SxV> },
    Assign { target: Box<SxV>, op: Seq<char>, value: Box<SxV> },
    If { t: Box<SxV>, c: Seq<SxV>, a: Seq<SxV> },
    For { init: Option<Box<SxV>>, t: Option<Box<SxV>>, u: Option<Box<SxV>>, body: Seq<SxV> },
    While { t: Box<SxV>, body: Seq<SxV> },
    Try { body: Seq<SxV>, handler: Option<(Seq<char>, Seq<SxV>)>, fin: Seq<SxV> },
    Ret(Option<Box<SxV>>),
    Throw(Box<SxV>),
    Break,
    Continue,
    Empty,
}

/// The texts of a list of strings.
pub open spec fn texts(v: Seq<String>) -> Seq<Seq<char>> {
    Seq::new(v.len(), |i: int| v[i]@)
}

/// The trees of a list.
pub open spec fn models(v: Seq<Sx>) -> Seq<SxV>
    decreases v,
{
    Seq::new(
        v.len(),
        |i: int|
            if 0 <= i < v.len() {
                v[i].model()
            } else {
                arbitrary()
            },
    )
}

/// The trees of the properties of an object.
pub open spec fn field_models(v: Seq<(String, Sx)>) -> Seq<(Seq<char>, SxV)>
    decreases v,
{
    Seq::new(
        v.len(),
        |i: int|
            if 0 <= i < v.len() {
                (v[i].0@, v[i].1.model())
            } else {
                arbitrary()
            },
    )
}

/// The tree in a box that may be empty.
pub open spec fn opt_model(o: Option<Box<Sx>>) -> Option<Box<SxV>> {
    match o {
        Some(x) => Some(Box::new(x.model())),
        None => None,
    }
}

impl Sx {
    /// The tree of this value.
    pub open spec fn model(&self) -> SxV
        decreases self,
    {
        match self {
            Sx::Num(n) => SxV::Num(*n),
            Sx::Str(s) => SxV::Str(s@),
            Sx::Bool(b) => SxV::Bool(*b),
            Sx::Null => SxV::Null,
            Sx::Undef => SxV::Undef,
            Sx::Ref(s) => SxV::Ref(s@),
            Sx::Member { obj, prop } => SxV::Member { obj: Box::new(obj.model()), prop: prop@ },
            Sx::Index { obj, idx } => SxV::Index {
                obj: Box::new(obj.model()),
                idx: Box::new(idx.model()),
            },
            Sx::Call { callee, args } => SxV::Call {
                callee: Box::new(callee.model()),
                args: models(args@),
            },
            Sx::New { callee, args } => SxV::New {
                callee: Box::new(callee.model()),
                args: models(args@),
            },
            Sx::Bin { op, l, r } => SxV::Bin {
                op: op@,
                l: Box::new(l.model()),
                r: Box::new(r.model()),
            },
            Sx::Un { op, a } => SxV::Un { op: op@, a: Box::new(a.model()) },
            Sx::Log { op, l, r } => SxV::Log {
                op: op@,
                l: Box::new(l.model()),
                r: Box::new(r.model()),
            },
            Sx::Cond { t, c, a } => SxV::Cond {
                t: Box::new(t.model()),
                c: Box::new(c.model()),
                a: Box::new(a.model()),
            },
            Sx::Arr(v) => SxV::Arr(models(v@)),
            Sx::Obj(v) => SxV::Obj(field_models(v@)),
            Sx::Fn { params, body, arrow } => SxV::Fn {
                params: texts(params@),
                body: models(body@),
                arrow: *arrow,
            },
            Sx::Class { name, super_ } => SxV::Class {
                name: name@,
                super_: match super_ {
                    Some(x) => Some(Box::new(x.model())),
                    None => None,
                },
            },
            Sx::Sequence(v) => SxV::Sequence(models(v@)),
            Sx::Block(v) => SxV::Block(models(v@)),
            Sx::Var { name, value } => SxV::Var { name: name@, value: Box::new(value.model()) },
            Sx::Assign { target, op, value } => SxV::Assign {
                target: Box::new(target.model()),
                op: op@,
                value: Box::new(value.model()),
            },
            Sx::If { t, c, a } => SxV::If {
                t: Box::new(t.model()),
                c: models(c@),
                a: models(a@),
            },
            Sx::For { init, t, u, body } => SxV::For {
                init: match init {
                    Some(x) => Some(Box::new(x.model())),
                    None => None,
                },
                t: match t {
                    Some(x) => Some(Box::new(x.model())),
                    None => None,
                },
                u: match u {
                    Some(x) => Some(Box::new(x.model())),
                    None => None,
                },
                body: models(body@),
            },
            Sx::While { t, body } => SxV::While { t: Box::new(t.model()), body: models(body@) },
            Sx::Try { body, handler, fin } => SxV::Try {
                body: models(body@),
                handler: match handler {
                    Some(h) => Some((h.0@, models(h.1@))),
                    None => None,
                },
                fin: models(fin@),
            },
            Sx::Ret(x) => SxV::Ret(
                match x {
                    Some(x) => Some(Box::new(x.model())),
                    None => None,
                },
            ),
            Sx::Throw(x) => SxV::Throw(Box::new(x.model())),
            Sx::Break => SxV::Break,
            Sx::Continue => SxV::Continue,
            Sx::Empty => SxV::Empty,
        }
    }
}

impl View for Sx {
    type V = SxV;

    open spec fn view(&self) -> SxV {
        self.model()
    }
}

// ------------------------------------------------------------------- copying

/// A copy of a list of strings.
pub fn copy_texts(v: &Vec<String>) -> (r: Vec<String>)
    ensures
        texts(r@) == texts(v@),
{
    let mut r: Vec<String> = Vec::new();
    let mut i: usize = 0;
    while i < v.len()
        invariant
            i <= v@.len(),
            r@.len() == i,
            forall|j: int| 0 <= j < i ==> r@[j]@ == v@[j]@,
        decreases v@.len() - i,
    {
        r.push(own(v[i].as_str()));
        i += 1;
    }
    assert(texts(r@) =~= texts(v@));
    r
}

/// A copy of a list.
pub fn copy_all(v: &Vec<Sx>) -> (r: Vec<Sx>)
    ensures
        models(r@) == models(v@),
    decreases v,
{
    let mut r: Vec<Sx> = Vec::new();
    let mut i: usize = 0;
    while i < v.len()
        invariant
            i <= v@.len(),
            r@.len() == i,
            forall|j: int| 0 <= j < i ==> (#[trigger] r@[j]).model() == v@[j].model(),
        decreases v@.len() - i,
    {
        r.push(v[i].clone());
        i += 1;
    }
    assert(models(r@) =~= models(v@));
    r
}

fn copy_fields(v: &Vec<(String, Sx)>) -> (r: Vec<(String, Sx)>)
    ensures
        field_models(r@) == field_models(v@),
    decreases v,
{
    let mut r: Vec<(String, Sx)> = Vec::new();
    let mut i: usize = 0;
    while i < v.len()
        invariant
            i <= v@.len(),
            r@.len() == i,
            forall|j: int|
                0 <= j < i ==> (#[trigger] r@[j]).0@ == v@[j].0@ && r@[j].1.model()
                    == v@[j].1.model(),
        decreases v@.len() - i,
    {
        assert(decreases_to!(v => v@[i as int].1));
        r.push((own(v[i].0.as_str()), v[i].1.clone()));
        i += 1;
    }
    assert(field_models(r@) =~= field_models(v@));
    r
}

fn copy_opt(o: &Option<Box<Sx>>) -> (r: Option<Box<Sx>>)
    ensures
        opt_model(r) == opt_model(*o),
    decreases o,
{
    match o {
        Some(x) => Some(Box::new((**x).clone())),
        None => None,
    }
}

impl Clone for Sx {
    fn clone(&self) -> (r: Self)
        ensures
            r@ == self@,
        decreases self,
    {
        match self {
            Sx::Num(n) => Sx::Num(*n),
            Sx::Str(s) => Sx::Str(own(s.as_str())),
            Sx::Bool(b) => Sx::Bool(*b),
            Sx::Null => Sx::Null,
            Sx::Undef => Sx::Undef,
            Sx::Ref(s) => Sx::Ref(own(s.as_str())),
            Sx::Member { obj, prop } => Sx::Member {
                obj: Box::new((**obj).clone()),
                prop: own(prop.as_str()),
            },
            Sx::Index { obj, idx } => Sx::Index {
                obj: Box::new((**obj).clone()),
                idx: Box::new((**idx).clone()),
            },
            Sx::Call { callee, args } => Sx::Call {
                callee: Box::new((**callee).clone()),
                args: copy_all(args),
            },
            Sx::New { callee, args } => Sx::New {
                callee: Box::new((**callee).clone()),
                args: copy_all(args),
            },
            Sx::Bin { op, l, r } => Sx::Bin {
                op: *op,
                l: Box::new((**l).clone()),
                r: Box::new((**r).clone()),
            },
            Sx::Un { op, a } => Sx::Un { op: *op, a: Box::new((**a).clone()) },
            Sx::Log { op, l, r } => Sx::Log {
                op: *op,
                l: Box::new((**l).clone()),
                r: Box::new((**r).clone()),
            },
            Sx::Cond { t, c, a } => Sx::Cond {
                t: Box::new((**t).clone()),
                c: Box::new((**c).clone()),
                a: Box::new((**a).clone()),
            },
            Sx::Arr(v) => Sx::Arr(copy_all(v)),
            Sx::Obj(v) => Sx::Obj(copy_fields(v)),
            Sx::Fn { params, body, arrow } => Sx::Fn {
                params: copy_texts(params),
                body: copy_all(body),
                arrow: *arrow,
            },
            Sx::Class { name, super_ } => Sx::Class {
                name: own(name.as_str()),
                super_: copy_opt(super_),
            },
            Sx::Sequence(v) => Sx::Sequence(copy_all(v)),
            Sx::Block(v) => Sx::Block(copy_all(v)),
            Sx::Var { name, value } => Sx::Var {
                name: own(name.as_str()),
                value: Box::new((**value).clone()),
            },
            Sx::Assign { target, op, value } => Sx::Assign {
                target: Box::new((**target).clone()),
                op: *op,
                value: Box::new((**value).clone()),
            },
            Sx::If { t, c, a } => Sx::If {
                t: Box::new((**t).clone()),
                c: copy_all(c),
                a: copy_all(a),
            },
            Sx::For { init, t, u, body } => Sx::For {
                init: copy_opt(init),
                t: copy_opt(t),
                u: copy_opt(u),
                body: copy_all(body),
            },
            Sx::While { t, body } => Sx::While {
                t: Box::new((**t).clone()),
                body: copy_all(body),
            },
            Sx::Try { body, handler, fin } => Sx::Try {
                body: copy_all(body),
                handler: match handler {
                    Some(h) => Some((own(h.0.as_str()), copy_all(&h.1))),
                    None => None,
                },
                fin: copy_all(fin),
            },
            Sx::Ret(x) => Sx::Ret(copy_opt(x)),
            Sx::Throw(x) => Sx::Throw(Box::new((**x).clone())),
            Sx::Break => Sx::Break,
            Sx::Continue => Sx::Continue,
            Sx::Empty => Sx::Empty,
        }
    }
}

// ------------------------------------------------------------------- walking

/// The nodes of a tree, the tree itself first, in the order they are written.
pub open spec fn nodes(sx: SxV) -> Seq<SxV>
    decreases sx, 0int,
{
    seq![sx] + match sx {
        SxV::Member { obj, .. } => nodes(*obj),
        SxV::Un { a, .. } => nodes(*a),
        SxV::Throw(x) => nodes(*x),
        SxV::Var { value, .. } => nodes(*value),
        SxV::Ret(x) => nodes_opt(x),
        SxV::Index { obj, idx } => nodes(*obj) + nodes(*idx),
        SxV::Call { callee, args } => nodes(*callee) + nodes_all(args, args.len() as int),
        SxV::New { callee, args } => nodes(*callee) + nodes_all(args, args.len() as int),
        SxV::Bin { l, r, .. } => nodes(*l) + nodes(*r),
        SxV::Log { l, r, .. } => nodes(*l) + nodes(*r),
        SxV::Cond { t, c, a } => nodes(*t) + nodes(*c) + nodes(*a),
        SxV::Arr(v) => nodes_all(v, v.len() as int),
        SxV::Sequence(v) => nodes_all(v, v.len() as int),
        SxV::Block(v) => nodes_all(v, v.len() as int),
        SxV::Obj(v) => nodes_fields(v, v.len() as int),
        SxV::Fn { body, .. } => nodes_all(body, body.len() as int),
        SxV::Class { super_, .. } => nodes_opt(super_),
        SxV::Assign { target, value, .. } => nodes(*target) + nodes(*value),
        SxV::If { t, c, a } => nodes(*t) + nodes_all(c, c.len() as int) + nodes_all(
            a,
            a.len() as int,
        ),
        SxV::For { init, t, u, body } => nodes_opt(init) + nodes_opt(t) + nodes_opt(u) + nodes_all(
            body,
            body.len() as int,
        ),
        SxV::While { t, body } => nodes(*t) + nodes_all(body, body.len() as int),
        SxV::Try { body, handler, fin } => nodes_all(body, body.len() as int) + match handler {
            Some(h) => nodes_all(h.1, h.1.len() as int),
            None => seq![],
        } + nodes_all(fin, fin.len() as int),
        _ => seq![],
    }
}

/// The nodes of a tree that may be missing.
pub open spec fn nodes_opt(o: Option<Box<SxV>>) -> Seq<SxV>
    decreases o, 0int,
{
    match o {
        Some(x) => nodes(*x),
        None => seq![],
    }
}

/// The nodes of the first `n` trees of a list.
pub open spec fn nodes_all(v: Seq<SxV>, n: int) -> Seq<SxV>
    decreases v, n,
{
    if n <= 0 || n > v.len() {
        seq![]
    } else {
        nodes_all(v, n - 1) + nodes(v[n - 1])
    }
}

/// The nodes of the values of the first `n` fields.
pub open spec fn nodes_fields(v: Seq<(Seq<char>, SxV)>, n: int) -> Seq<SxV>
    decreases v, n,
{
    if n <= 0 || n > v.len() {
        seq![]
    } else {
        nodes_fields(v, n - 1) + nodes(v[n - 1].1)
    }
}

/// The nodes of a list of trees.
pub open spec fn nodes_of(v: Seq<SxV>) -> Seq<SxV> {
    nodes_all(v, v.len() as int)
}

/// The trees that a list of references points to.
pub open spec fn seen(v: Seq<&Sx>) -> Seq<SxV> {
    Seq::new(v.len(), |i: int| v[i].model())
}

/// Appends the nodes of a list of trees.
pub fn walk_all<'a>(v: &'a Vec<Sx>, out: &mut Vec<&'a Sx>)
    ensures
        seen(final(out)@) == seen(old(out)@) + nodes_of(models(v@)),
    decreases v, 0int,
{
    let ghost start = seen(out@);
    let ghost m = models(v@);
    let mut i: usize = 0;
    assert(seen(out@) =~= start + nodes_all(m, 0));
    while i < v.len()
        invariant
            i <= v@.len(),
            m == models(v@),
            seen(out@) == start + nodes_all(m, i as int),
        decreases v@.len() - i,
    {
        walk_sx(&v[i], out);
        i += 1;
        assert(seen(out@) =~= start + nodes_all(m, i as int));
    }
}

fn walk_fields<'a>(v: &'a Vec<(String, Sx)>, out: &mut Vec<&'a Sx>)
    ensures
        seen(final(out)@) == seen(old(out)@) + nodes_fields(field_models(v@), v@.len() as int),
    decreases v, 0int,
{
    let ghost start = seen(out@);
    let ghost m = field_models(v@);
    let mut i: usize = 0;
    assert(seen(out@) =~= start + nodes_fields(m, 0));
    while i < v.len()
        invariant
            i <= v@.len(),
            m == field_models(v@),
            seen(out@) == start + nodes_fields(m, i as int),
        decreases v@.len() - i,
    {
        assert(decreases_to!(v => v@[i as int].1));
        walk_sx(&v[i].1, out);
        i += 1;
        assert(seen(out@) =~= start + nodes_fields(m, i as int));
    }
}

fn walk_opt<'a>(o: &'a Option<Box<Sx>>, out: &mut Vec<&'a Sx>)
    ensures
        seen(final(out)@) == seen(old(out)@) + nodes_opt(opt_model(*o)),
    decreases o, 0int,
{
    let ghost start = seen(out@);
    if let Some(x) = o {
        walk_sx(x, out);
    }
    assert(seen(out@) =~= start + nodes_opt(opt_model(*o)));
}

/// Appends the nodes of a tree, the tree itself first.
pub fn walk_sx<'a>(sx: &'a Sx, out: &mut Vec<&'a Sx>)
    ensures
        seen(final(out)@) == seen(old(out)@) + nodes(sx@),
    decreases sx, 0int,
{
    broadcast use group_concat;

    let ghost start = seen(out@);
    out.push(sx);
    assert(seen(out@) =~= start + seq![sx@]);
    match sx {
        Sx::Member { obj, .. } | Sx::Un { a: obj, .. } | Sx::Throw(obj) | Sx::Var { value: obj, .. } =>
        walk_sx(obj, out),
        Sx::Ret(x) | Sx::Class { super_: x, .. } => walk_opt(x, out),
        Sx::Index { obj, idx } => {
            walk_sx(obj, out);
            walk_sx(idx, out);
        },
        Sx::Call { callee, args } | Sx::New { callee, args } => {
            walk_sx(callee, out);
            walk_all(args, out);
        },
        Sx::Bin { l, r, .. } | Sx::Log { l, r, .. } => {
            walk_sx(l, out);
            walk_sx(r, out);
        },
        Sx::Cond { t, c, a } => {
            walk_sx(t, out);
            walk_sx(c, out);
            walk_sx(a, out);
        },
        Sx::Arr(v) | Sx::Sequence(v) | Sx::Block(v) => walk_all(v, out),
        Sx::Obj(v) => walk_fields(v, out),
        Sx::Fn { body, .. } => walk_all(body, out),
        Sx::Assign { target, value, .. } => {
            walk_sx(target, out);
            walk_sx(value, out);
        },
        Sx::If { t, c, a } => {
            walk_sx(t, out);
            walk_all(c, out);
            walk_all(a, out);
        },
        Sx::For { init, t, u, body } => {
            walk_opt(init, out);
            walk_opt(t, out);
            walk_opt(u, out);
            walk_all(body, out);
        },
        Sx::While { t, body } => {
            walk_sx(t, out);
            walk_all(body, out);
        },
        Sx::Try { body, handler, fin } => {
            walk_all(body, out);
            if let Some(h) = handler {
                walk_all(&h.1, out);
            }
            walk_all(fin, out);
        },
        _ => {},
    }
}

/// The nodes of a list of trees.
pub fn harvest<'a>(v: &'a Vec<Sx>) -> (r: Vec<&'a Sx>)
    ensures
        seen(r@) == nodes_of(models(v@)),
{
    let mut out: Vec<&Sx> = Vec::new();
    walk_all(v, &mut out);
    assert(seen(out@) =~= nodes_of(models(v@)));
    out
}

/// The nodes of a tree.
pub fn nodes_in<'a>(sx: &'a Sx) -> (r: Vec<&'a Sx>)
    ensures
        seen(r@) == nodes(sx@),
{
    let mut out: Vec<&Sx> = Vec::new();
    walk_sx(sx, &mut out);
    assert(seen(out@) =~= nodes(sx@));
    out
}

// --------------------------------------------------------------- taking apart

impl Sx {
    /// The number of a number.
    pub fn as_num(&self) -> (r: Option<u64>)
        ensures
            r == match self@ {
                SxV::Num(n) => Some(n),
                _ => None,
            },
    {
        match self {
            Sx::Num(n) => Some(*n),
            _ => None,
        }
    }

    /// The text of a string.
    pub fn as_text<'a>(&'a self) -> (r: Option<&'a str>)
        ensures
            match self@ {
                SxV::Str(s) => r matches Some(t) && t@ == s,
                _ => r is None,
            },
    {
        match self {
            Sx::Str(s) => Some(s.as_str()),
            _ => None,
        }
    }

    /// The name of a reference.
    pub fn as_name<'a>(&'a self) -> (r: Option<&'a str>)
        ensures
            match self@ {
                SxV::Ref(s) => r matches Some(t) && t@ == s,
                _ => r is None,
            },
    {
        match self {
            Sx::Ref(s) => Some(s.as_str()),
            _ => None,
        }
    }

    /// The object and the name of a property access.
    pub fn as_member<'a>(&'a self) -> (r: Option<(&'a Sx, &'a str)>)
        ensures
            match self@ {
                SxV::Member { obj, prop } => r matches Some(p) && p.0@ == *obj && p.1@ == prop,
                _ => r is None,
            },
    {
        match self {
            Sx::Member { obj, prop } => Some((&**obj, prop.as_str())),
            _ => None,
        }
    }

    /// The callee and the arguments of a call.
    pub fn as_call<'a>(&'a self) -> (r: Option<(&'a Sx, &'a Vec<Sx>)>)
        ensures
            match self@ {
                SxV::Call { callee, args } => r matches Some(p) && p.0@ == *callee && models(p.1@)
                    == args && p.1@.len() == args.len(),
                _ => r is None,
            },
    {
        match self {
            Sx::Call { callee, args } => {
                assert(models(args@).len() == args@.len());
                Some((&**callee, args))
            },
            _ => None,
        }
    }

    /// The operator and the operands of a binary operation.
    pub fn as_bin<'a>(&'a self) -> (r: Option<(&'static str, &'a Sx, &'a Sx)>)
        ensures
            match self@ {
                SxV::Bin { op, l, r: right } => r matches Some(p) && p.0@ == op && p.1@ == *l
                    && p.2@ == *right,
                _ => r is None,
            },
    {
        match self {
            Sx::Bin { op, l, r } => Some((*op, &**l, &**r)),
            _ => None,
        }
    }

    /// The items of an array.
    pub fn as_arr<'a>(&'a self) -> (r: Option<&'a Vec<Sx>>)
        ensures
            match self@ {
                SxV::Arr(v) => r matches Some(p) && models(p@) == v && p@.len() == v.len(),
                _ => r is None,
            },
    {
        match self {
            Sx::Arr(v) => {
                assert(models(v@).len() == v@.len());
                Some(v)
            },
            _ => None,
        }
    }

    /// The body of a function.
    pub fn as_fn<'a>(&'a self) -> (r: Option<&'a Vec<Sx>>)
        ensures
            match self@ {
                SxV::Fn { body, .. } => r matches Some(p) && models(p@) == body,
                _ => r is None,
            },
    {
        match self {
            Sx::Fn { body, .. } => Some(body),
            _ => None,
        }
    }

    /// The name and the value of a variable.
    pub fn as_var<'a>(&'a self) -> (r: Option<(&'a str, &'a Sx)>)
        ensures
            match self@ {
                SxV::Var { name, value } => r matches Some(p) && p.0@ == name && p.1@ == *value,
                _ => r is None,
            },
    {
        match self {
            Sx::Var { name, value } => Some((name.as_str(), &**value)),
            _ => None,
        }
    }

    /// The target, the operator and the value of an assignment.
    pub fn as_assign<'a>(&'a self) -> (r: Option<(&'a Sx, &'static str, &'a Sx)>)
        ensures
            match self@ {
                SxV::Assign { target, op, value } => r matches Some(p) && p.0@ == *target && p.1@
                    == op && p.2@ == *value,
                _ => r is None,
            },
    {
        match self {
            Sx::Assign { target, op, value } => Some((&**target, *op, &**value)),
            _ => None,
        }
    }

    /// The properties of an object.
    pub fn as_obj<'a>(&'a self) -> (r: Option<&'a Vec<(String, Sx)>>)
        ensures
            match self@ {
                SxV::Obj(v) => r matches Some(p) && field_models(p@) == v && p@.len() == v.len(),
                _ => r is None,
            },
    {
        match self {
            Sx::Obj(v) => {
                assert(field_models(v@).len() == v@.len());
                Some(v)
            },
            _ => None,
        }
    }

    /// What a `return` returns.
    pub fn as_ret<'a>(&'a self) -> (r: Option<&'a Sx>)
        ensures
            match self@ {
                SxV::Ret(Some(x)) => r matches Some(p) && p@ == *x,
                _ => r is None,
            },
    {
        match self {
            Sx::Ret(Some(x)) => Some(&**x),
            _ => None,
        }
    }

    /// The value of a boolean.
    pub fn as_bool(&self) -> (r: Option<bool>)
        ensures
            r == match self@ {
                SxV::Bool(b) => Some(b),
                _ => None,
            },
    {
        match self {
            Sx::Bool(b) => Some(*b),
            _ => None,
        }
    }

    /// The first tree of a list.
    pub fn first<'a>(v: &'a Vec<Sx>) -> (r: Option<&'a Sx>)
        ensures
            models(v@).len() == v@.len(),
            match r {
                Some(x) => v@.len() > 0 && x@ == models(v@)[0],
                None => v@.len() == 0,
            },
    {
        assert(models(v@).len() == v@.len());
        if v.len() > 0 {
            assert(models(v@)[0] == v@[0].model());
            Some(&v[0])
        } else {
            None
        }
    }
}

} // verus!
