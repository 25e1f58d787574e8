//! Programs as straight-line code for a machine with registers.
//!
//! Lowering turns a program for the stack machine into a list of instructions, each of
//! which defines one value out of earlier ones. A code generator has to emit them one
//! for one.
use vstd::prelude::*;

use crate::floats::{ArithOp, FloatOps, FloatsV};
#[allow(unused_imports)]
use crate::jsnum::{bits_of_nat, int32_of, negated, of_int32, signed32, uint32_of};
#[allow(unused_imports)]
use crate::pipeline::ops::{height, takes, Op, Program};
#[allow(unused_imports)]
use crate::text::{join2, own};

verus! {

/// Why a program has no native code.
#[derive(Debug)]
pub enum JitErr {
    /// There is no code generator for this machine.
    Isa(String),
    /// The code generator refused the code.
    Define(String),
    /// The program does something that has no code.
    NotImplemented(&'static str),
    /// The native code does not do what the program does.
    Canary,
}

/// [`JitErr`] over plain texts.
pub enum JitErrV {
    Isa(Seq<char>),
    Define(Seq<char>),
    NotImplemented(Seq<char>),
    Canary,
}

impl View for JitErr {
    type V = JitErrV;

    open spec fn view(&self) -> JitErrV {
        match *self {
            JitErr::Isa(s) => JitErrV::Isa(s@),
            JitErr::Define(s) => JitErrV::Define(s@),
            JitErr::NotImplemented(s) => JitErrV::NotImplemented(s@),
            JitErr::Canary => JitErrV::Canary,
        }
    }
}

impl JitErrV {
    /// The error in words.
    pub open spec fn words(self) -> Seq<char> {
        match self {
            JitErrV::Isa(s) => "isa: "@ + s,
            JitErrV::Define(s) => "define: "@ + s,
            JitErrV::NotImplemented(s) => "не реализовано: "@ + s,
            JitErrV::Canary => "канарейка: jit разошёлся с интерпретатором"@,
        }
    }
}

impl JitErr {
    /// The error in words.
    pub fn text(&self) -> (s: String)
        ensures
            s@ == self@.words(),
    {
        match self {
            JitErr::Isa(s) => join2("isa: ", s.as_str()),
            JitErr::Define(s) => join2("define: ", s.as_str()),
            JitErr::NotImplemented(s) => join2("не реализовано: ", s),
            JitErr::Canary => own("канарейка: jit разошёлся с интерпретатором"),
        }
    }
}

/// An operation on two integers of thirty-two bits.
#[derive(Clone, Copy, PartialEq, Eq, Structural, Debug)]
pub enum IntOp {
    Xor,
    And,
    Or,
    /// A shift by the second operand, which is below thirty-two.
    Shl,
    Shr,
    Ushr,
}

/// One instruction. Operands are the numbers of the instructions that define them.
#[derive(Clone, Copy, PartialEq, Eq, Structural, Debug)]
pub enum Ins {
    /// A number, given by its bits.
    Const(u64),
    /// The variable of this number.
    Load(u8),
    Float(ArithOp, usize, usize),
    Neg(usize),
    /// The low thirty-two bits of the whole part of a number, however large it is; zero
    /// for a NaN and for an infinity.
    ToInt(usize),
    /// The low five bits of an integer.
    Mask(usize),
    Int(IntOp, usize, usize),
    /// An integer as a number.
    FromInt(usize),
    /// The bits of an integer as a number that is not negative.
    FromBits(usize),
}

/// What an instruction defines.
pub enum Val {
    Num(u64),
    Int(i32),
}

/// An operation on two integers.
pub open spec fn int_apply(op: IntOp, a: i32, b: i32) -> i32 {
    match op {
        IntOp::Xor => a ^ b,
        IntOp::And => a & b,
        IntOp::Or => a | b,
        IntOp::Shl => a << (b as u32),
        IntOp::Shr => a >> (b as u32),
        IntOp::Ushr => ((a as u32) >> (b as u32)) as i32,
    }
}

/// What becomes of the result of an operation on integers: that of a logical shift has
/// no sign.
pub open spec fn as_number(op: IntOp, n: i32) -> u64 {
    if op == IntOp::Ushr { bits_of_nat((n as u32) as nat) as u64 } else { of_int32(n) }
}

/// The floating point value of a result; zero for an integer one.
pub open spec fn num(v: Val) -> u64 {
    match v {
        Val::Num(b) => b,
        Val::Int(_) => 0,
    }
}

/// The integer value of a result; zero for a floating point one.
pub open spec fn int_of(v: Val) -> i32 {
    match v {
        Val::Num(_) => 0,
        Val::Int(n) => n,
    }
}

impl FloatsV {
    /// What an instruction defines, given what the earlier ones do.
    pub open spec fn defined(&self, ins: Ins, vals: Seq<Val>, vars: Seq<u64>) -> Val {
        match ins {
            Ins::Const(b) => Val::Num(b),
            Ins::Load(i) => Val::Num(vars[i as int]),
            Ins::Float(op, a, b) => Val::Num(
                (self.op)(op, num(vals[a as int]), num(vals[b as int])),
            ),
            Ins::Neg(a) => Val::Num(negated(num(vals[a as int]))),
            Ins::ToInt(a) => Val::Int(int32_of(num(vals[a as int]))),
            Ins::Mask(a) => Val::Int(int_of(vals[a as int]) & 31),
            Ins::Int(op, a, b) => Val::Int(
                int_apply(op, int_of(vals[a as int]), int_of(vals[b as int])),
            ),
            Ins::FromInt(a) => Val::Num(of_int32(int_of(vals[a as int]))),
            Ins::FromBits(a) => Val::Num(
                bits_of_nat((int_of(vals[a as int]) as u32) as nat) as u64,
            ),
        }
    }

    /// What all instructions define.
    pub open spec fn trace(&self, code: Seq<Ins>, vars: Seq<u64>) -> Seq<Val>
        decreases code.len(),
    {
        if code.len() == 0 {
            seq![]
        } else {
            let before = self.trace(code.drop_last(), vars);
            before.push(self.defined(code.last(), before, vars))
        }
    }

    /// What native code makes of two numbers.
    pub open spec fn native_apply(&self, op: Op, a: u64, b: u64) -> u64 {
        let (x, y) = (int32_of(a), int32_of(b));
        match op {
            Op::Add => (self.op)(ArithOp::Add, a, b),
            Op::Sub => (self.op)(ArithOp::Sub, a, b),
            Op::Mul => (self.op)(ArithOp::Mul, a, b),
            Op::Div => (self.op)(ArithOp::Div, a, b),
            Op::Mod => (self.op)(ArithOp::Rem, a, b),
            Op::Xor => of_int32(int_apply(IntOp::Xor, x, y)),
            Op::And => of_int32(int_apply(IntOp::And, x, y)),
            Op::Or => of_int32(int_apply(IntOp::Or, x, y)),
            Op::Shl => of_int32(int_apply(IntOp::Shl, x, y & 31)),
            Op::Shr => of_int32(int_apply(IntOp::Shr, x, y & 31)),
            _ => as_number(IntOp::Ushr, int_apply(IntOp::Ushr, x, y & 31)),
        }
    }

    /// The stack of a program that is run as native code.
    pub open spec fn native_stack(&self, ops: Seq<Op>, vars: Seq<u64>) -> Seq<u64>
        decreases ops.len(),
    {
        if ops.len() == 0 {
            seq![]
        } else {
            let s = self.native_stack(ops.drop_last(), vars);
            match ops.last() {
                Op::Const(c) => s.push(c),
                Op::Var(i) => s.push(vars[i as int]),
                Op::Neg => s.drop_last().push(negated(s.last())),
                op => s.drop_last().drop_last().push(
                    self.native_apply(op, s[s.len() - 2], s[s.len() - 1]),
                ),
            }
        }
    }

    /// The code keeps the stack of the program: the value `regs[i]` is the number at
    /// place `i`.
    pub open spec fn keeps(
        &self,
        code: Seq<Ins>,
        regs: Seq<usize>,
        ops: Seq<Op>,
        vars: Seq<u64>,
    ) -> bool {
        let t = self.trace(code, vars);
        let s = self.native_stack(ops, vars);
        &&& t.len() == code.len()
        &&& s.len() == regs.len()
        &&& forall|i: int|
            0 <= i < regs.len() ==> (#[trigger] regs[i]) < code.len() && t[regs[i] as int]
                == Val::Num(s[i])
    }
}

/// A program as straight-line code: its instructions, and the number of the one that
/// defines the result.
pub struct Lowered {
    pub code: Vec<Ins>,
    pub result: usize,
}

/// Every operand of an instruction is defined before it.
pub open spec fn in_order(code: Seq<Ins>) -> bool {
    forall|i: int| 0 <= i < code.len() ==> #[trigger] operands_before(code[i], i)
}

/// The operands of an instruction are among the first `n`.
pub open spec fn operands_before(ins: Ins, n: int) -> bool {
    match ins {
        Ins::Const(_) | Ins::Load(_) => true,
        Ins::Float(_, a, b) | Ins::Int(_, a, b) => a < n && b < n,
        Ins::Neg(a) | Ins::ToInt(a) | Ins::Mask(a) | Ins::FromInt(a) | Ins::FromBits(a) => a < n,
    }
}

fn emit(code: &mut Vec<Ins>, ins: Ins) -> (r: usize)
    requires
        in_order(old(code)@),
        operands_before(ins, old(code)@.len() as int),
    ensures
        final(code)@ == old(code)@.push(ins),
        r == old(code)@.len(),
        in_order(final(code)@),
        final(code)@.len() <= usize::MAX,
{
    code.push(ins);
    code.len() - 1
}

/// One more instruction adds one more value.
proof fn lemma_trace(fl: FloatsV, code: Seq<Ins>, ins: Ins, vars: Seq<u64>)
    ensures
        fl.trace(code.push(ins), vars) == fl.trace(code, vars).push(
            fl.defined(ins, fl.trace(code, vars), vars),
        ),
{
    assert(code.push(ins).drop_last() =~= code);
}

/// There is a value for each instruction.
proof fn lemma_trace_len(fl: FloatsV, code: Seq<Ins>, vars: Seq<u64>)
    ensures
        fl.trace(code, vars).len() == code.len(),
    decreases code.len(),
{
    if code.len() > 0 {
        lemma_trace_len(fl, code.drop_last(), vars);
    }
}

/// Where a part of the steps has no height, the program has none.
proof fn lemma_no_height(ops: Seq<Op>, i: int)
    requires
        0 <= i <= ops.len(),
        height(ops.take(i)) is None,
    ensures
        height(ops) is None,
    decreases ops.len(),
{
    if i < ops.len() {
        assert(ops.drop_last().take(i) =~= ops.take(i));
        lemma_no_height(ops.drop_last(), i);
    } else {
        assert(ops.take(i) =~= ops);
    }
}

/// The instruction that makes a number of the result of an operation on integers.
spec fn back(op: IntOp, n: usize) -> Ins {
    if op == IntOp::Ushr { Ins::FromBits(n) } else { Ins::FromInt(n) }
}

/// The code for an operation on two integers.
spec fn int_code(n: int, op: IntOp, masked: bool, a: usize, b: usize) -> Seq<Ins> {
    if masked {
        seq![
            Ins::ToInt(a),
            Ins::ToInt(b),
            Ins::Mask((n + 1) as usize),
            Ins::Int(op, n as usize, (n + 2) as usize),
            back(op, (n + 3) as usize),
        ]
    } else {
        seq![
            Ins::ToInt(a),
            Ins::ToInt(b),
            Ins::Int(op, n as usize, (n + 1) as usize),
            back(op, (n + 2) as usize),
        ]
    }
}

/// What the code for an operation on two integers adds.
proof fn lemma_int_code(
    fl: FloatsV,
    code: Seq<Ins>,
    op: IntOp,
    masked: bool,
    a: usize,
    b: usize,
    vars: Seq<u64>,
)
    requires
        a < code.len(),
        b < code.len(),
        code.len() + int_code(code.len() as int, op, masked, a, b).len() <= usize::MAX,
    ensures
        ({
            let t = fl.trace(code, vars);
            let u = fl.trace(code + int_code(code.len() as int, op, masked, a, b), vars);
            let x = int32_of(num(t[a as int]));
            let y = int32_of(num(t[b as int]));
            let m = if masked { y & 31 } else { y };
            &&& t.len() == code.len()
            &&& u.len() == code.len() + int_code(code.len() as int, op, masked, a, b).len()
            &&& forall|i: int| 0 <= i < t.len() ==> #[trigger] u[i] == t[i]
            &&& u.last() == Val::Num(as_number(op, int_apply(op, x, m)))
        }),
{
    let n = code.len() as int;
    let t = fl.trace(code, vars);
    lemma_trace_len(fl, code, vars);
    let c1 = code.push(Ins::ToInt(a));
    let c2 = c1.push(Ins::ToInt(b));
    lemma_trace(fl, code, Ins::ToInt(a), vars);
    lemma_trace(fl, c1, Ins::ToInt(b), vars);
    let t2 = fl.trace(c2, vars);
    if masked {
        let c3 = c2.push(Ins::Mask((n + 1) as usize));
        let c4 = c3.push(Ins::Int(op, n as usize, (n + 2) as usize));
        let c5 = c4.push(back(op, (n + 3) as usize));
        lemma_trace(fl, c2, Ins::Mask((n + 1) as usize), vars);
        lemma_trace(fl, c3, Ins::Int(op, n as usize, (n + 2) as usize), vars);
        lemma_trace(fl, c4, back(op, (n + 3) as usize), vars);
        assert(c5 =~= code + int_code(n, op, masked, a, b));
    } else {
        let c3 = c2.push(Ins::Int(op, n as usize, (n + 1) as usize));
        let c4 = c3.push(back(op, (n + 2) as usize));
        lemma_trace(fl, c2, Ins::Int(op, n as usize, (n + 1) as usize), vars);
        lemma_trace(fl, c3, back(op, (n + 2) as usize), vars);
        assert(c4 =~= code + int_code(n, op, masked, a, b));
    }
}

fn emit_int(code: &mut Vec<Ins>, op: IntOp, masked: bool, a: usize, b: usize) -> (r: usize)
    requires
        in_order(old(code)@),
        a < old(code)@.len(),
        b < old(code)@.len(),
    ensures
        final(code)@ == old(code)@ + int_code(old(code)@.len() as int, op, masked, a, b),
        r == final(code)@.len() - 1,
        in_order(final(code)@),
        final(code)@.len() <= usize::MAX,
{
    let x: usize = emit(code, Ins::ToInt(a));
    let y: usize = emit(code, Ins::ToInt(b));
    let m: usize = if masked {
        emit(code, Ins::Mask(y))
    } else {
        y
    };
    let i: usize = emit(code, Ins::Int(op, x, m));
    let r: usize = match op {
        IntOp::Ushr => emit(code, Ins::FromBits(i)),
        _ => emit(code, Ins::FromInt(i)),
    };
    assert(code@ =~= old(code)@ + int_code(old(code)@.len() as int, op, masked, a, b));
    r
}

/// The instruction or the operation on integers for an operation of a program.
pub enum Kind {
    Float(ArithOp),
    Int(IntOp, bool),
}

/// How an operation of a program is done natively.
pub open spec fn kind_of(op: Op) -> Kind {
    match op {
        Op::Add => Kind::Float(ArithOp::Add),
        Op::Sub => Kind::Float(ArithOp::Sub),
        Op::Mul => Kind::Float(ArithOp::Mul),
        Op::Div => Kind::Float(ArithOp::Div),
        Op::Mod => Kind::Float(ArithOp::Rem),
        Op::Xor => Kind::Int(IntOp::Xor, false),
        Op::And => Kind::Int(IntOp::And, false),
        Op::Or => Kind::Int(IntOp::Or, false),
        Op::Shl => Kind::Int(IntOp::Shl, true),
        Op::Shr => Kind::Int(IntOp::Shr, true),
        _ => Kind::Int(IntOp::Ushr, true),
    }
}

fn find_kind(op: Op) -> (r: Kind)
    ensures
        r == kind_of(op),
{
    match op {
        Op::Add => Kind::Float(ArithOp::Add),
        Op::Sub => Kind::Float(ArithOp::Sub),
        Op::Mul => Kind::Float(ArithOp::Mul),
        Op::Div => Kind::Float(ArithOp::Div),
        Op::Mod => Kind::Float(ArithOp::Rem),
        Op::Xor => Kind::Int(IntOp::Xor, false),
        Op::And => Kind::Int(IntOp::And, false),
        Op::Or => Kind::Int(IntOp::Or, false),
        Op::Shl => Kind::Int(IntOp::Shl, true),
        Op::Shr => Kind::Int(IntOp::Shr, true),
        _ => Kind::Int(IntOp::Ushr, true),
    }
}

/// The code for an operation of two operands.
spec fn pair_code(n: int, op: Op, a: usize, b: usize) -> Seq<Ins> {
    match kind_of(op) {
        Kind::Float(f) => seq![Ins::Float(f, a, b)],
        Kind::Int(i, masked) => int_code(n, i, masked, a, b),
    }
}

/// What the code for an operation of two operands adds.
proof fn lemma_pair_code(fl: FloatsV, code: Seq<Ins>, op: Op, a: usize, b: usize, vars: Seq<u64>)
    requires
        a < code.len(),
        b < code.len(),
        code.len() + pair_code(code.len() as int, op, a, b).len() <= usize::MAX,
        takes(op) == 2,
    ensures
        ({
            let t = fl.trace(code, vars);
            let u = fl.trace(code + pair_code(code.len() as int, op, a, b), vars);
            &&& t.len() == code.len()
            &&& u.len() == code.len() + pair_code(code.len() as int, op, a, b).len()
            &&& forall|i: int| 0 <= i < t.len() ==> #[trigger] u[i] == t[i]
            &&& u.last() == Val::Num(fl.native_apply(op, num(t[a as int]), num(t[b as int])))
        }),
{
    lemma_trace_len(fl, code, vars);
    match kind_of(op) {
        Kind::Float(f) => {
            lemma_trace(fl, code, Ins::Float(f, a, b), vars);
            assert(code + pair_code(code.len() as int, op, a, b) =~= code.push(
                Ins::Float(f, a, b),
            ));
        },
        Kind::Int(i, masked) => {
            lemma_int_code(fl, code, i, masked, a, b, vars);
        },
    }
}

fn emit_pair(code: &mut Vec<Ins>, op: Op, a: usize, b: usize) -> (r: usize)
    requires
        in_order(old(code)@),
        a < old(code)@.len(),
        b < old(code)@.len(),
    ensures
        final(code)@ == old(code)@ + pair_code(old(code)@.len() as int, op, a, b),
        r == final(code)@.len() - 1,
        in_order(final(code)@),
        final(code)@.len() <= usize::MAX,
{
    match find_kind(op) {
        Kind::Float(f) => {
            let r: usize = emit(code, Ins::Float(f, a, b));
            assert(code@ =~= old(code)@ + pair_code(old(code)@.len() as int, op, a, b));
            r
        },
        Kind::Int(i, masked) => emit_int(code, i, masked, a, b),
    }
}

/// The code after a step of the program.
proof fn lemma_keeps_leaf(
    fl: FloatsV,
    code: Seq<Ins>,
    regs: Seq<usize>,
    ops: Seq<Op>,
    op: Op,
    vars: Seq<u64>,
)
    requires
        fl.keeps(code, regs, ops, vars),
        op is Const || op is Var,
        code.len() <= usize::MAX,
    ensures
        fl.keeps(
            code.push(leaf(op)),
            regs.push(code.len() as usize),
            ops.push(op),
            vars,
        ),
{
    assert(ops.push(op).drop_last() =~= ops);
    lemma_trace(fl, code, leaf(op), vars);
    let c = code.push(leaf(op));
    let g = regs.push(code.len() as usize);
    let t = fl.trace(c, vars);
    let s = fl.native_stack(ops.push(op), vars);
    assert forall|i: int| 0 <= i < g.len() implies (#[trigger] g[i]) < c.len() && t[g[i] as int]
        == Val::Num(s[i]) by {
        if i < regs.len() {
            assert(g[i] == regs[i]);
        }
    }
}

/// The instruction for a constant or a variable.
spec fn leaf(op: Op) -> Ins {
    match op {
        Op::Const(c) => Ins::Const(c),
        Op::Var(i) => Ins::Load(i),
        _ => Ins::Const(0),
    }
}

proof fn lemma_keeps_neg(
    fl: FloatsV,
    code: Seq<Ins>,
    regs: Seq<usize>,
    ops: Seq<Op>,
    vars: Seq<u64>,
)
    requires
        fl.keeps(code, regs, ops, vars),
        regs.len() > 0,
        code.len() <= usize::MAX,
    ensures
        fl.keeps(
            code.push(Ins::Neg(regs.last())),
            regs.drop_last().push(code.len() as usize),
            ops.push(Op::Neg),
            vars,
        ),
{
    assert(ops.push(Op::Neg).drop_last() =~= ops);
    lemma_trace(fl, code, Ins::Neg(regs.last()), vars);
    let c = code.push(Ins::Neg(regs.last()));
    let g = regs.drop_last().push(code.len() as usize);
    let t = fl.trace(c, vars);
    let s0 = fl.native_stack(ops, vars);
    let s = fl.native_stack(ops.push(Op::Neg), vars);
    assert(regs[regs.len() - 1] < code.len());
    assert forall|i: int| 0 <= i < g.len() implies (#[trigger] g[i]) < c.len() && t[g[i] as int]
        == Val::Num(s[i]) by {
        if i < regs.len() - 1 {
            assert(g[i] == regs[i]);
            assert(s[i] == s0[i]);
        }
    }
}

proof fn lemma_keeps_pair(
    fl: FloatsV,
    code: Seq<Ins>,
    regs: Seq<usize>,
    ops: Seq<Op>,
    op: Op,
    vars: Seq<u64>,
)
    requires
        fl.keeps(code, regs, ops, vars),
        regs.len() >= 2,
        takes(op) == 2,
        code.len() + pair_code(
            code.len() as int,
            op,
            regs[regs.len() - 2],
            regs[regs.len() - 1],
        ).len() <= usize::MAX,
    ensures
        ({
            let a = regs[regs.len() - 2];
            let b = regs[regs.len() - 1];
            let c = code + pair_code(code.len() as int, op, a, b);
            fl.keeps(
                c,
                regs.drop_last().drop_last().push((c.len() - 1) as usize),
                ops.push(op),
                vars,
            )
        }),
{
    let a = regs[regs.len() - 2];
    let b = regs[regs.len() - 1];
    let c = code + pair_code(code.len() as int, op, a, b);
    assert(ops.push(op).drop_last() =~= ops);
    lemma_pair_code(fl, code, op, a, b, vars);
    let g = regs.drop_last().drop_last().push((c.len() - 1) as usize);
    let t0 = fl.trace(code, vars);
    let t = fl.trace(c, vars);
    let s0 = fl.native_stack(ops, vars);
    let s = fl.native_stack(ops.push(op), vars);
    assert(num(t0[a as int]) == s0[s0.len() - 2]);
    assert(num(t0[b as int]) == s0[s0.len() - 1]);
    assert forall|i: int| 0 <= i < g.len() implies (#[trigger] g[i]) < c.len() && t[g[i] as int]
        == Val::Num(s[i]) by {
        if i < regs.len() - 2 {
            assert(g[i] == regs[i]);
            assert(s[i] == s0[i]);
        }
    }
}

/// `r` is the code of a program: there is none where a step takes more numbers than
/// there are, and where nothing is left.
pub open spec fn is_lowered(r: Result<Lowered, JitErr>, ops: Seq<Op>) -> bool {
    match height(ops) {
        None => r matches Err(e) && e@ == JitErrV::NotImplemented("стек пуст"@),
        Some(h) => if h == 0 {
            r matches Err(e) && e@ == JitErrV::NotImplemented("нет результата"@)
        } else {
            &&& r matches Ok(l)
            &&& in_order(l.code@)
            &&& l.result < l.code@.len()
            &&& forall|fl: FloatsV, vars: Seq<u64>|
                #![trigger fl.native_stack(ops, vars)]
                fl.trace(l.code@, vars)[l.result as int] == Val::Num(
                    fl.native_stack(ops, vars).last(),
                )
        },
    }
}

/// Turns a program into straight-line code.
pub fn lower(program: &Program) -> (r: Result<Lowered, JitErr>)
    ensures
        is_lowered(r, program.ops@),
{
    let ghost any: FloatsV = arbitrary();
    let ops = &program.ops;
    let mut code: Vec<Ins> = Vec::new();
    let mut regs: Vec<usize> = Vec::new();
    let mut i: usize = 0;
    proof {
        assert(ops@.take(0) =~= seq![]);
        assert forall|m: FloatsV, vars: Seq<u64>| #[trigger]
            m.keeps(code@, regs@, ops@.take(0), vars) by {
            assert(m.trace(code@, vars) =~= seq![]);
            assert(m.native_stack(ops@.take(0), vars) =~= seq![]);
        }
    }
    while i < ops.len()
        invariant
            i <= ops@.len(),
            ops@ == program.ops@,
            in_order(code@),
            height(ops@.take(i as int)) == Some(regs@.len() as int),
            forall|m: FloatsV, vars: Seq<u64>|
                #[trigger] m.keeps(code@, regs@, ops@.take(i as int), vars),
        decreases ops@.len() - i,
    {
        let op: Op = ops[i];
        let ghost part = ops@.take(i as int);
        let ghost c0 = code@;
        let ghost g0 = regs@;
        proof {
            assert(ops@.take(i + 1) =~= part.push(op));
            assert(part.push(op).drop_last() =~= part);
            assert(forall|m: FloatsV, vars: Seq<u64>| #[trigger] m.keeps(c0, g0, part, vars));
            assert(any.keeps(c0, g0, part, seq![]));
        }
        match op {
            Op::Const(c) => {
                let r: usize = emit(&mut code, Ins::Const(c));
                regs.push(r);
                proof {
                    assert forall|m: FloatsV, vars: Seq<u64>| #[trigger]
                        m.keeps(code@, regs@, part.push(op), vars) by {
                        assert(m.keeps(c0, g0, part, vars));
                        lemma_keeps_leaf(m, c0, g0, part, op, vars);
                    }
                }
            },
            Op::Var(v) => {
                let r: usize = emit(&mut code, Ins::Load(v));
                regs.push(r);
                proof {
                    assert forall|m: FloatsV, vars: Seq<u64>| #[trigger]
                        m.keeps(code@, regs@, part.push(op), vars) by {
                        assert(m.keeps(c0, g0, part, vars));
                        lemma_keeps_leaf(m, c0, g0, part, op, vars);
                    }
                }
            },
            Op::Neg => {
                let a: usize = match regs.pop() {
                    Some(a) => a,
                    None => {
                        proof {
                            lemma_no_height(ops@, i + 1);
                        }
                        return Err(JitErr::NotImplemented("стек пуст"));
                    },
                };
                assert(g0[g0.len() - 1] == a);
                let r: usize = emit(&mut code, Ins::Neg(a));
                regs.push(r);
                proof {
                    assert forall|m: FloatsV, vars: Seq<u64>| #[trigger]
                        m.keeps(code@, regs@, part.push(op), vars) by {
                        assert(m.keeps(c0, g0, part, vars));
                        lemma_keeps_neg(m, c0, g0, part, vars);
                    }
                }
            },
            _ => {
                if regs.len() < 2 {
                    proof {
                        lemma_no_height(ops@, i + 1);
                    }
                    return Err(JitErr::NotImplemented("стек пуст"));
                }
                let b: usize = regs[regs.len() - 1];
                let a: usize = regs[regs.len() - 2];
                let top: usize = regs.len() - 2;
                regs.truncate(top);
                assert(regs@ =~= g0.drop_last().drop_last());
                assert(g0[g0.len() - 1] == b && g0[g0.len() - 2] == a);
                let r: usize = emit_pair(&mut code, op, a, b);
                regs.push(r);
                proof {
                    assert forall|m: FloatsV, vars: Seq<u64>| #[trigger]
                        m.keeps(code@, regs@, part.push(op), vars) by {
                        assert(m.keeps(c0, g0, part, vars));
                        lemma_keeps_pair(m, c0, g0, part, op, vars);
                    }
                }
            },
        }
        i += 1;
    }
    assert(ops@.take(i as int) =~= ops@);
    if regs.len() == 0 {
        return Err(JitErr::NotImplemented("нет результата"));
    }
    let result: usize = regs[regs.len() - 1];
    proof {
        assert(any.keeps(code@, regs@, ops@, seq![]));
        assert(regs@[regs@.len() - 1] == result);
        assert forall|m: FloatsV, vars: Seq<u64>|
            #![trigger m.native_stack(ops@, vars)]
            m.trace(code@, vars)[result as int] == Val::Num(m.native_stack(ops@, vars).last()) by {
            assert(m.keeps(code@, regs@, ops@, vars));
            assert(regs@[regs@.len() - 1] == result);
        }
    }
    Ok(Lowered { code, result })
}

/// Whether what native code gave is what the program gives, bit for bit.
pub fn verify<F: FloatOps>(program: &Program, given: u64, vars: &[u64], fl: &F) -> (r: bool)
    requires
        fl.ok(),
        fl.model().supplied(program.ops@, vars@),
    ensures
        r == (given == fl.model().outcome(program.ops@, vars@)),
{
    given == program.eval(vars, fl)
}

// ----------------------------------------------------------- native code and the program

/// The low five bits of an integer, of either sign.
proof fn lemma_mask(y: i32)
    ensures
        (y & 31) as u32 == (y as u32) % 32,
        0 <= y & 31 < 32,
{
    assert((y & 31) as u32 == (y as u32) % 32 && 0 <= (y & 31) && (y & 31) < 32) by (bit_vector);
}

/// An operation gives the same natively.
pub proof fn lemma_native_apply(fl: FloatsV, op: Op, a: u64, b: u64)
    requires
        takes(op) == 2,
    ensures
        fl.native_apply(op, a, b) == fl.apply(op, a, b),
{
    if let Kind::Int(i, masked) = kind_of(op) {
        let (x, y) = (int32_of(a), int32_of(b));
        lemma_mask(y);
        lemma_unsigned(uint32_of(a));
        lemma_unsigned(uint32_of(b));
        let s = uint32_of(b) % 32;
        assert((y & 31) as u32 == s);
        lemma_bits(uint32_of(a) >> s);
    }
}

/// The bits of a signed integer are those that it was read from.
proof fn lemma_unsigned(u: u32)
    ensures
        signed32(u) as u32 == u,
{
    if u >= 0x8000_0000 {
        assert(((u - 0x1_0000_0000) as i32) as u32 == u) by (bit_vector)
            requires
                u >= 0x8000_0000,
        ;
    }
}

/// The bits of an unsigned integer are kept where it is held as a signed one.
proof fn lemma_bits(r: u32)
    ensures
        (r as i32) as u32 == r,
{
    assert((r as i32) as u32 == r) by (bit_vector);
}

/// The native stack of a program is its stack.
proof fn lemma_native_stack(fl: FloatsV, ops: Seq<Op>, vars: Seq<u64>)
    requires
        height(ops) is Some,
        fl.stack(ops, vars) is Some,
    ensures
        fl.native_stack(ops, vars) == fl.stack(ops, vars)->0,
        fl.native_stack(ops, vars).len() == height(ops)->0,
    decreases ops.len(),
{
    if ops.len() > 0 {
        lemma_native_stack(fl, ops.drop_last(), vars);
        let s = fl.native_stack(ops.drop_last(), vars);
        if takes(ops.last()) == 2 {
            lemma_native_apply(fl, ops.last(), s[s.len() - 2], s[s.len() - 1]);
        }
    }
}

/// Native code gives what the program gives, bit for bit, on all variables on which
/// the program runs through.
pub proof fn lemma_native_agrees(fl: FloatsV, l: Lowered, ops: Seq<Op>, vars: Seq<u64>)
    requires
        is_lowered(Ok(l), ops),
        fl.stack(ops, vars) is Some,
    ensures
        fl.trace(l.code@, vars)[l.result as int] == Val::Num(fl.outcome(ops, vars)),
{
    lemma_native_stack(fl, ops, vars);
}

} // verus!
