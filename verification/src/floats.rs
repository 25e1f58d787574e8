//! Floating point as the library sees it.
//!
//! A JavaScript number is held as the bit pattern of an IEEE 754 binary64 value
//! (`u64`). What needs rounding arithmetic, or the shortest decimal text of a
//! fraction, is asked of the caller through [`Floats`]; everything else about a
//! number (its sign, its integer part, its order) is read off the bits in `jsnum`.
use vstd::prelude::*;

verus! {

/// A rounding operation on two numbers.
#[derive(Clone, Copy, PartialEq, Eq, Structural, Debug)]
pub enum ArithOp {
    Add,
    Sub,
    Mul,
    Div,
    Rem,
    Pow,
}

/// Floating point as a mathematical object.
pub struct FloatsV {
    /// The result of an operation.
    pub op: spec_fn(ArithOp, u64, u64) -> u64,
    /// The number that a decimal text denotes.
    pub parsed: spec_fn(Seq<char>) -> u64,
    /// The plain decimal text of a number.
    pub shown: spec_fn(u64) -> Seq<char>,
    /// The decimal text of a number that always tells it from an integer.
    pub dumped: spec_fn(u64) -> Seq<char>,
}

/// What the library asks of a floating point implementation.
pub trait FloatOps {
    /// The operations may be called on every argument.
    spec fn ok(&self) -> bool;

    /// What they compute.
    spec fn model(&self) -> FloatsV;

    /// Computes an operation.
    fn compute(&self, o: ArithOp, a: u64, b: u64) -> (r: u64)
        requires
            self.ok(),
        ensures
            r == (self.model().op)(o, a, b),
    ;

    /// Reads a decimal number; a NaN where there is none.
    fn read(&self, s: &str) -> (r: u64)
        requires
            self.ok(),
        ensures
            r == (self.model().parsed)(s@),
    ;

    /// Writes a number in plain decimal.
    fn write(&self, a: u64) -> (r: String)
        requires
            self.ok(),
        ensures
            r@ == (self.model().shown)(a),
    ;

    /// Writes a number so that it cannot be taken for an integer.
    fn dump(&self, a: u64) -> (r: String)
        requires
            self.ok(),
        ensures
            r@ == (self.model().dumped)(a),
    ;
}

/// The caller's floating point, as functions on bit patterns.
pub struct Floats<A, P, S, D> {
    pub arith: A,
    pub parse: P,
    pub show: S,
    pub debug: D,
}

/// The function accepts every number and returns a text that the number alone
/// determines.
pub open spec fn writes<S: Fn(u64) -> String>(f: S) -> bool {
    &&& forall|a: u64| #[trigger] call_requires(f, (a,))
    &&& forall|a: u64, r: String, q: String|
        #[trigger] call_ensures(f, (a,), r) && #[trigger] call_ensures(f, (a,), q) ==> r@ == q@
}

/// `f` may write the number as `t`.
pub open spec fn may_write<S: Fn(u64) -> String>(f: S, a: u64, t: Seq<char>) -> bool {
    exists|r: String| r@ == t && #[trigger] call_ensures(f, (a,), r)
}

/// The text that `f` writes.
pub open spec fn written<S: Fn(u64) -> String>(f: S, a: u64) -> Seq<char> {
    choose|t: Seq<char>| may_write(f, a, t)
}

fn text_by<S: Fn(u64) -> String>(f: &S, a: u64) -> (r: String)
    requires
        writes(*f),
    ensures
        r@ == written(*f, a),
{
    let r = f(a);
    proof {
        assert(call_ensures(*f, (a,), r));
        assert(may_write(*f, a, r@));
    }
    r
}

/// `f` may read the text `t` as `r`.
pub open spec fn may_read<P: Fn(&str) -> u64>(f: P, t: Seq<char>, r: u64) -> bool {
    exists|s: &str| s@ == t && #[trigger] call_ensures(f, (s,), r)
}

impl<A, P, S, D> FloatOps for Floats<A, P, S, D> where
    A: Fn(ArithOp, u64, u64) -> u64,
    P: Fn(&str) -> u64,
    S: Fn(u64) -> String,
    D: Fn(u64) -> String,
 {
    /// The functions accept every argument, and what they return is determined by
    /// the argument.
    open spec fn ok(&self) -> bool {
        &&& forall|o: ArithOp, a: u64, b: u64| #[trigger] call_requires(self.arith, (o, a, b))
        &&& forall|o: ArithOp, a: u64, b: u64, r: u64, q: u64|
            #[trigger] call_ensures(self.arith, (o, a, b), r) && #[trigger] call_ensures(
                self.arith,
                (o, a, b),
                q,
            ) ==> r == q
        &&& forall|s: &str| #[trigger] call_requires(self.parse, (s,))
        &&& forall|s: &str, t: &str, r: u64, q: u64|
            s@ == t@ && #[trigger] call_ensures(self.parse, (s,), r) && #[trigger] call_ensures(
                self.parse,
                (t,),
                q,
            ) ==> r == q
        &&& writes(self.show)
        &&& writes(self.debug)
    }

    open spec fn model(&self) -> FloatsV {
        FloatsV {
            op: |o: ArithOp, a: u64, b: u64| choose|r: u64| call_ensures(self.arith, (o, a, b), r),
            parsed: |t: Seq<char>| choose|r: u64| may_read(self.parse, t, r),
            shown: |a: u64| written(self.show, a),
            dumped: |a: u64| written(self.debug, a),
        }
    }

    fn compute(&self, o: ArithOp, a: u64, b: u64) -> (r: u64) {
        (self.arith)(o, a, b)
    }

    fn read(&self, s: &str) -> (r: u64) {
        let r: u64 = (self.parse)(s);
        proof {
            assert(call_ensures(self.parse, (s,), r));
            assert(may_read(self.parse, s@, r));
        }
        r
    }

    fn write(&self, a: u64) -> (r: String) {
        text_by(&self.show, a)
    }

    fn dump(&self, a: u64) -> (r: String) {
        text_by(&self.debug, a)
    }
}

} // verus!
