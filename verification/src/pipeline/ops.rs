//! Programs for a stack machine on numbers.
use std::collections::hash_map::DefaultHasher;
use std::hash::Hasher;

use vstd::prelude::*;
use vstd::std_specs::hash::DefaultHasherAdditionalSpecFns;

use crate::floats::{ArithOp, FloatOps, FloatsV};
use crate::jsnum::{
    bit_and, bit_or, bit_xor, negate, negated, num_and, num_or, num_shl, num_shr, num_ushr, num_xor, shift_left,
    shift_right, shift_right_zero, NAN,
};

verus! {

/// One step of a program.
#[derive(Clone, Copy, PartialEq, Eq, Structural, Debug)]
pub enum Op {
    /// Pushes a number, given by its bits.
    Const(u64),
    /// Pushes the variable of this number.
    Var(u8),
    Add,
    Sub,
    Mul,
    Div,
    Mod,
    Neg,
    Xor,
    And,
    Or,
    Shl,
    Shr,
    Ushr,
}

/// A program: its steps, and how many variables it was made for.
pub struct Program {
    pub ops: Vec<Op>,
    pub n_vars: usize,
}

/// The number of numbers that a program can hold at a time.
pub const DEPTH: usize = 64;

/// How many numbers a step takes off the stack.
pub open spec fn takes(op: Op) -> int {
    match op {
        Op::Const(_) | Op::Var(_) => 0,
        Op::Neg => 1,
        _ => 2,
    }
}

/// How many numbers a program leaves on the stack; `None` where a step takes more
/// than there are.
pub open spec fn height(ops: Seq<Op>) -> Option<int>
    decreases ops.len(),
{
    if ops.len() == 0 {
        Some(0)
    } else {
        match height(ops.drop_last()) {
            Some(h) => if takes(ops.last()) <= h { Some(h - takes(ops.last()) + 1) } else { None },
            None => None,
        }
    }
}

impl FloatsV {
    /// What an operation makes of two numbers.
    pub open spec fn apply(&self, op: Op, a: u64, b: u64) -> u64 {
        match op {
            Op::Add => (self.op)(ArithOp::Add, a, b),
            Op::Sub => (self.op)(ArithOp::Sub, a, b),
            Op::Mul => (self.op)(ArithOp::Mul, a, b),
            Op::Div => (self.op)(ArithOp::Div, a, b),
            Op::Mod => (self.op)(ArithOp::Rem, a, b),
            Op::Xor => bit_xor(a, b),
            Op::And => bit_and(a, b),
            Op::Or => bit_or(a, b),
            Op::Shl => shift_left(a, b),
            Op::Shr => shift_right(a, b),
            _ => shift_right_zero(a, b),
        }
    }

    /// The stack after a step; `None` where the stack is full or the variable is
    /// not there.
    pub open spec fn step(&self, op: Op, stack: Seq<u64>, vars: Seq<u64>) -> Option<Seq<u64>> {
        match op {
            Op::Const(c) => if stack.len() >= DEPTH { None } else { Some(stack.push(c)) },
            Op::Var(i) => if stack.len() >= DEPTH || i >= vars.len() {
                None
            } else {
                Some(stack.push(vars[i as int]))
            },
            Op::Neg => Some(stack.drop_last().push(negated(stack.last()))),
            _ => Some(
                stack.drop_last().drop_last().push(
                    self.apply(op, stack[stack.len() - 2], stack[stack.len() - 1]),
                ),
            ),
        }
    }

    /// The stack after all steps; `None` where one of them fails.
    pub open spec fn stack(&self, ops: Seq<Op>, vars: Seq<u64>) -> Option<Seq<u64>>
        decreases ops.len(),
    {
        if ops.len() == 0 {
            Some(seq![])
        } else {
            match self.stack(ops.drop_last(), vars) {
                Some(s) => self.step(ops.last(), s, vars),
                None => None,
            }
        }
    }

    /// The outcome of a program: the last number on the stack, or a NaN where a
    /// step fails or nothing is left.
    pub open spec fn outcome(&self, ops: Seq<Op>, vars: Seq<u64>) -> u64 {
        match self.stack(ops, vars) {
            Some(s) => if s.len() == 0 { NAN } else { s.last() },
            None => NAN,
        }
    }

    /// Every step that is reached finds on the stack what it takes.
    pub open spec fn supplied(&self, ops: Seq<Op>, vars: Seq<u64>) -> bool
        decreases ops.len(),
    {
        ops.len() > 0 ==> self.supplied(ops.drop_last(), vars) && match self.stack(
            ops.drop_last(),
            vars,
        ) {
            Some(s) => takes(ops.last()) <= s.len(),
            None => true,
        }
    }

    /// A program that has a height finds what it takes, whatever its variables are.
    pub proof fn lemma_supplied(&self, ops: Seq<Op>, vars: Seq<u64>)
        requires
            height(ops) is Some,
        ensures
            self.supplied(ops, vars),
            self.stack(ops, vars) matches Some(s) ==> s.len() == height(ops)->0,
        decreases ops.len(),
    {
        if ops.len() > 0 {
            self.lemma_supplied(ops.drop_last(), vars);
        }
    }

    /// What holds of all steps holds of the first `i`.
    proof fn lemma_supplied_part(&self, ops: Seq<Op>, i: int, vars: Seq<u64>)
        requires
            0 <= i <= ops.len(),
            self.supplied(ops, vars),
        ensures
            self.supplied(ops.take(i), vars),
        decreases ops.len(),
    {
        if i < ops.len() {
            self.lemma_supplied_part(ops.drop_last(), i, vars);
            assert(ops.drop_last().take(i) =~= ops.take(i));
        } else {
            assert(ops.take(i) =~= ops);
        }
    }

    /// Where a part of the steps fails, the program does.
    proof fn lemma_failed(&self, ops: Seq<Op>, i: int, vars: Seq<u64>)
        requires
            0 <= i <= ops.len(),
            self.stack(ops.take(i), vars) is None,
        ensures
            self.stack(ops, vars) is None,
        decreases ops.len(),
    {
        if i < ops.len() {
            assert(ops.drop_last().take(i) =~= ops.take(i));
            self.lemma_failed(ops.drop_last(), i, vars);
        } else {
            assert(ops.take(i) =~= ops);
        }
    }
}

/// What an operation makes of two numbers.
pub fn apply<F: FloatOps>(op: Op, a: u64, b: u64, fl: &F) -> (r: u64)
    requires
        fl.ok(),
    ensures
        r == fl.model().apply(op, a, b),
{
    match op {
        Op::Add => fl.compute(ArithOp::Add, a, b),
        Op::Sub => fl.compute(ArithOp::Sub, a, b),
        Op::Mul => fl.compute(ArithOp::Mul, a, b),
        Op::Div => fl.compute(ArithOp::Div, a, b),
        Op::Mod => fl.compute(ArithOp::Rem, a, b),
        Op::Xor => num_xor(a, b),
        Op::And => num_and(a, b),
        Op::Or => num_or(a, b),
        Op::Shl => num_shl(a, b),
        Op::Shr => num_shr(a, b),
        _ => num_ushr(a, b),
    }
}

/// The `k` low bytes of a number, the lowest first.
pub open spec fn low_bytes(n: nat, k: nat) -> Seq<u8>
    decreases k,
{
    if k == 0 { seq![] } else { seq![(n % 256) as u8] + low_bytes(n / 256, (k - 1) as nat) }
}

/// The place of a step without operand in the list of steps.
pub open spec fn code(op: Op) -> u64 {
    match op {
        Op::Const(_) => 0,
        Op::Var(_) => 1,
        Op::Add => 2,
        Op::Sub => 3,
        Op::Mul => 4,
        Op::Div => 5,
        Op::Mod => 6,
        Op::Neg => 7,
        Op::Xor => 8,
        Op::And => 9,
        Op::Or => 10,
        Op::Shl => 11,
        Op::Shr => 12,
        Op::Ushr => 13,
    }
}

/// The byte strings that stand for a step in the hash of a program.
pub open spec fn hashed(op: Op) -> Seq<Seq<u8>> {
    match op {
        Op::Const(c) => seq![seq![0u8], low_bytes(c as nat, 8)],
        Op::Var(i) => seq![seq![1u8], seq![i]],
        _ => seq![low_bytes(code(op) as nat, 8)],
    }
}

/// The byte strings that stand for the first `n` steps.
pub open spec fn hashed_all(ops: Seq<Op>, n: int) -> Seq<Seq<u8>>
    decreases n,
{
    if n <= 0 || n > ops.len() { seq![] } else { hashed_all(ops, n - 1) + hashed(ops[n - 1]) }
}

fn bytes8(n: u64) -> (v: Vec<u8>)
    ensures
        v@ == low_bytes(n as nat, 8),
{
    let mut v: Vec<u8> = Vec::new();
    let mut rest: u64 = n;
    let mut k: usize = 0;
    assert(v@ + low_bytes(n as nat, 8) =~= low_bytes(n as nat, 8));
    while k < 8
        invariant
            k <= 8,
            v@ + low_bytes(rest as nat, (8 - k) as nat) == low_bytes(n as nat, 8),
        decreases 8 - k,
    {
        let ghost before = v@;
        let ghost was = rest;
        v.push((rest % 256) as u8);
        rest = rest / 256;
        k += 1;
        assert(v@ + low_bytes(rest as nat, (8 - k) as nat) =~= before + low_bytes(was as nat, (8 - k + 1) as nat));
    }
    assert(v@ + low_bytes(rest as nat, 0) =~= v@);
    v
}

fn code_of(op: Op) -> (r: u64)
    ensures
        r == code(op),
{
    match op {
        Op::Const(_) => 0,
        Op::Var(_) => 1,
        Op::Add => 2,
        Op::Sub => 3,
        Op::Mul => 4,
        Op::Div => 5,
        Op::Mod => 6,
        Op::Neg => 7,
        Op::Xor => 8,
        Op::And => 9,
        Op::Or => 10,
        Op::Shl => 11,
        Op::Shr => 12,
        Op::Ushr => 13,
    }
}

impl Program {
    /// A hash of what the program does: its steps with their operands and the
    /// number of its variables. Variables have no names here, so two programs of
    /// the same steps have the same hash.
    pub fn content_hash(&self) -> (r: u64)
        ensures
            r == DefaultHasher::spec_finish(
                seq![low_bytes(self.n_vars as nat, 8)] + hashed_all(
                    self.ops@,
                    self.ops@.len() as int,
                ),
            ),
    {
        let mut h = DefaultHasher::new();
        h.write(bytes8(self.n_vars as u64).as_slice());
        let ghost start = seq![low_bytes(self.n_vars as nat, 8)];
        let mut i: usize = 0;
        assert(h@ =~= start + hashed_all(self.ops@, 0));
        while i < self.ops.len()
            invariant
                i <= self.ops@.len(),
                h@ == start + hashed_all(self.ops@, i as int),
            decreases self.ops@.len() - i,
        {
            let ghost before = h@;
            let op: Op = self.ops[i];
            match op {
                Op::Const(c) => {
                    h.write(&[0u8]);
                    h.write(bytes8(c).as_slice());
                },
                Op::Var(v) => {
                    h.write(&[1u8]);
                    h.write(&[v]);
                },
                _ => h.write(bytes8(code_of(op)).as_slice()),
            }
            i += 1;
            assert(h@ =~= before + hashed(op)) by {
                assert([0u8]@ =~= seq![0u8]);
                assert([1u8]@ =~= seq![1u8]);
                assert(op is Var ==> [op->Var_0]@ =~= seq![op->Var_0]);
            }
            assert(h@ =~= start + hashed_all(self.ops@, i as int));
        }
        h.finish()
    }

    /// Runs the program on the variables `vars`. A step may fail before a later one
    /// would take too much.
    pub fn eval<F: FloatOps>(&self, vars: &[u64], fl: &F) -> (r: u64)
        requires
            fl.ok(),
            fl.model().supplied(self.ops@, vars@),
        ensures
            r == fl.model().outcome(self.ops@, vars@),
    {
        let ghost m = fl.model();
        let mut stack: Vec<u64> = Vec::new();
        let mut i: usize = 0;
        assert(stack@ =~= seq![]);
        assert(self.ops@.take(0) =~= seq![]);
        while i < self.ops.len()
            invariant
                fl.ok(),
                m == fl.model(),
                i <= self.ops@.len(),
                m.supplied(self.ops@, vars@),
                m.stack(self.ops@.take(i as int), vars@) == Some(stack@),
            decreases self.ops@.len() - i,
        {
            let op: Op = self.ops[i];
            let ghost before = stack@;
            proof {
                let part = self.ops@.take(i + 1);
                assert(part.drop_last() =~= self.ops@.take(i as int));
                assert(part.last() == op);
                m.lemma_supplied_part(self.ops@, i + 1, vars@);
                if m.step(op, before, vars@) is None {
                    m.lemma_failed(self.ops@, i + 1, vars@);
                }
            }
            match op {
                Op::Const(c) => {
                    if stack.len() >= DEPTH {
                        return NAN;
                    }
                    stack.push(c);
                },
                Op::Var(v) => {
                    if stack.len() >= DEPTH || v as usize >= vars.len() {
                        return NAN;
                    }
                    stack.push(vars[v as usize]);
                },
                Op::Neg => {
                    let a: u64 = match stack.pop() {
                        Some(a) => a,
                        None => 0,
                    };
                    stack.push(negate(a));
                },
                _ => {
                    let b: u64 = match stack.pop() {
                        Some(b) => b,
                        None => 0,
                    };
                    let a: u64 = match stack.pop() {
                        Some(a) => a,
                        None => 0,
                    };
                    stack.push(apply(op, a, b, fl));
                },
            }
            assert(m.step(op, before, vars@) == Some(stack@));
            i += 1;
        }
        assert(self.ops@.take(i as int) =~= self.ops@);
        if stack.len() == 0 {
            NAN
        } else {
            stack[stack.len() - 1]
        }
    }
}

} // verus!
