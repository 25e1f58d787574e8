//! Constant folding on folded expressions.
use vstd::prelude::*;

use crate::floats::{ArithOp, FloatOps, FloatsV};
use crate::ints::{i64_hex_text, parse_hex_i64, trim, trimmed};
use crate::jsnum::{
    bit_and, bit_not, bit_or, bit_xor, bits_of_int, equal, format_js_num, from_i64, is_nan, is_zero, less, less_eq,
    nan, negate, negated, num_and, num_eq, num_le, num_lt, num_not, num_or, num_shl, num_shr, num_ushr, num_xor,
    shift_left, shift_right, shift_right_zero, zero, NAN,
};
use crate::pipeline::sx::{Sx, SxV};
use crate::text::{chars_of, join2, own, str_eq, string_of};

verus! {

/// Whether a value counts as true, where its form alone tells.
pub open spec fn truth(sx: SxV) -> Option<bool> {
    match sx {
        SxV::Bool(b) => Some(b),
        SxV::Num(n) => Some(!(is_nan(n) || is_zero(n))),
        SxV::Str(s) => Some(s.len() > 0),
        SxV::Undef | SxV::Null => Some(false),
        SxV::Arr(_) | SxV::Obj(_) | SxV::Fn { .. } | SxV::Class { .. } => Some(true),
        _ => None,
    }
}

/// A text with no character in it.
pub fn empty(s: &str) -> (r: bool)
    ensures
        r == (s@.len() == 0),
{
    proof {
        reveal_strlit("");
    }
    let r = str_eq(s, "");
    assert(s@.len() == 0 ==> s@ =~= ""@);
    r
}

/// Whether a value counts as true, where its form alone tells.
pub fn truthy(sx: &Sx) -> (r: Option<bool>)
    ensures
        r == truth(sx@),
{
    match sx {
        Sx::Bool(b) => Some(*b),
        Sx::Num(n) => Some(!(nan(*n) || zero(*n))),
        Sx::Str(s) => Some(!empty(s.as_str())),
        Sx::Undef | Sx::Null => Some(false),
        Sx::Arr(_) | Sx::Obj(_) | Sx::Fn { .. } | Sx::Class { .. } => Some(true),
        _ => None,
    }
}

impl FloatsV {
    /// JavaScript's `Number(s)`: zero for white space, a 64 bit integer behind
    /// `0x`, otherwise what the caller's `parse` reads.
    pub open spec fn number_text(&self, s: Seq<char>) -> u64 {
        let t = trimmed(s);
        if t.len() == 0 {
            0
        } else if t.len() >= 2 && t[0] == '0' && (t[1] == 'x' || t[1] == 'X') {
            match i64_hex_text(t.subrange(2, t.len() as int)) {
                Some(n) => bits_of_int(n) as u64,
                None => NAN,
            }
        } else {
            (self.parsed)(t)
        }
    }

    /// The value of an arithmetic or bit operator on two numbers.
    pub open spec fn arith(&self, op: Seq<char>, a: u64, b: u64) -> Option<u64> {
        if op == "+"@ {
            Some((self.op)(ArithOp::Add, a, b))
        } else if op == "-"@ {
            Some((self.op)(ArithOp::Sub, a, b))
        } else if op == "*"@ {
            Some((self.op)(ArithOp::Mul, a, b))
        } else if op == "/"@ {
            Some((self.op)(ArithOp::Div, a, b))
        } else if op == "%"@ {
            Some((self.op)(ArithOp::Rem, a, b))
        } else if op == "^"@ {
            Some(bit_xor(a, b))
        } else if op == "|"@ {
            Some(bit_or(a, b))
        } else if op == "&"@ {
            Some(bit_and(a, b))
        } else if op == "<<"@ {
            Some(shift_left(a, b))
        } else if op == ">>"@ {
            Some(shift_right(a, b))
        } else {
            None
        }
    }

    /// The number that a binary operator makes of two numbers.
    pub open spec fn number_op(&self, op: Seq<char>, a: u64, b: u64) -> Option<u64> {
        if op == "**"@ {
            Some((self.op)(ArithOp::Pow, a, b))
        } else if op == ">>>"@ {
            Some(shift_right_zero(a, b))
        } else {
            self.arith(op, a, b)
        }
    }
}

/// JavaScript's `Number(s)`.
pub fn js_to_number<F: FloatOps>(s: &str, fl: &F) -> (r: u64)
    requires
        fl.ok(),
    ensures
        r == fl.model().number_text(s@),
{
    let v = chars_of(s);
    let n: usize = v.len();
    assert(v@.subrange(0, n as int) =~= s@);
    let (a, z) = trim(&v, 0, n);
    let ghost t = trimmed(s@);
    if a == z {
        return 0;
    }
    assert(t[0] == v@[a as int]);
    assert(z - a >= 2 ==> t[1] == v@[a + 1]);
    if z - a >= 2 && v[a] == '0' && (v[a + 1] == 'x' || v[a + 1] == 'X') {
        assert(t.subrange(2, t.len() as int) =~= v@.subrange(a + 2, z as int));
        match parse_hex_i64(&v, a + 2, z) {
            Some(n) => from_i64(n),
            None => NAN,
        }
    } else {
        fl.read(string_of(v.as_slice(), a, z).as_str())
    }
}

/// The value of an arithmetic or bit operator on two numbers.
pub fn fold_arith<F: FloatOps>(op: &str, a: u64, b: u64, fl: &F) -> (r: Option<u64>)
    requires
        fl.ok(),
    ensures
        r == fl.model().arith(op@, a, b),
{
    if str_eq(op, "+") {
        Some(fl.compute(ArithOp::Add, a, b))
    } else if str_eq(op, "-") {
        Some(fl.compute(ArithOp::Sub, a, b))
    } else if str_eq(op, "*") {
        Some(fl.compute(ArithOp::Mul, a, b))
    } else if str_eq(op, "/") {
        Some(fl.compute(ArithOp::Div, a, b))
    } else if str_eq(op, "%") {
        Some(fl.compute(ArithOp::Rem, a, b))
    } else if str_eq(op, "^") {
        Some(num_xor(a, b))
    } else if str_eq(op, "|") {
        Some(num_or(a, b))
    } else if str_eq(op, "&") {
        Some(num_and(a, b))
    } else if str_eq(op, "<<") {
        Some(num_shl(a, b))
    } else if str_eq(op, ">>") {
        Some(num_shr(a, b))
    } else {
        None
    }
}

/// Whether two values are equal, where their forms tell: `undefined` and `null`
/// are equal to each other, and neither they nor a boolean equal a number or a
/// string.
pub open spec fn same(l: SxV, r: SxV) -> Option<bool> {
    match (l, r) {
        (SxV::Num(a), SxV::Num(b)) => Some(num_eq(a, b)),
        (SxV::Str(a), SxV::Str(b)) => Some(a == b),
        (SxV::Bool(a), SxV::Bool(b)) => Some(a == b),
        (SxV::Undef, SxV::Undef) | (SxV::Null, SxV::Null) | (SxV::Undef, SxV::Null) | (
            SxV::Null,
            SxV::Undef,
        ) => Some(true),
        (SxV::Undef | SxV::Null | SxV::Bool(_), SxV::Num(_) | SxV::Str(_)) | (
            SxV::Num(_) | SxV::Str(_),
            SxV::Undef | SxV::Null | SxV::Bool(_),
        ) => Some(false),
        _ => None,
    }
}

/// Whether two values are equal, where their forms tell.
pub fn strict_eq(l: &Sx, r: &Sx) -> (e: Option<bool>)
    ensures
        e == same(l@, r@),
{
    match (l, r) {
        (Sx::Num(a), Sx::Num(b)) => Some(equal(*a, *b)),
        (Sx::Str(a), Sx::Str(b)) => Some(str_eq(a.as_str(), b.as_str())),
        (Sx::Bool(a), Sx::Bool(b)) => Some(*a == *b),
        (Sx::Undef, Sx::Undef) | (Sx::Null, Sx::Null) | (Sx::Undef, Sx::Null) | (
            Sx::Null,
            Sx::Undef,
        ) => Some(true),
        (Sx::Undef | Sx::Null | Sx::Bool(_), Sx::Num(_) | Sx::Str(_)) | (
            Sx::Num(_) | Sx::Str(_),
            Sx::Undef | Sx::Null | Sx::Bool(_),
        ) => Some(false),
        _ => None,
    }
}

/// What `typeof` says of a value, where its form tells.
pub open spec fn kind_name(a: SxV) -> Option<Seq<char>> {
    match a {
        SxV::Undef => Some("undefined"@),
        SxV::Null => Some("object"@),
        SxV::Bool(_) => Some("boolean"@),
        SxV::Num(_) => Some("number"@),
        SxV::Str(_) => Some("string"@),
        SxV::Fn { .. } => Some("function"@),
        SxV::Arr(_) | SxV::Obj(_) | SxV::Class { .. } => Some("object"@),
        _ => None,
    }
}

fn type_of(a: &Sx) -> (r: Option<&'static str>)
    ensures
        match kind_name(a@) {
            Some(t) => r matches Some(s) && s@ == t,
            None => r is None,
        },
{
    match a {
        Sx::Undef => Some("undefined"),
        Sx::Null => Some("object"),
        Sx::Bool(_) => Some("boolean"),
        Sx::Num(_) => Some("number"),
        Sx::Str(_) => Some("string"),
        Sx::Fn { .. } => Some("function"),
        Sx::Arr(_) | Sx::Obj(_) | Sx::Class { .. } => Some("object"),
        _ => None,
    }
}

impl FloatsV {
    /// A unary operator applied to a folded operand.
    pub open spec fn unary(&self, op: Seq<char>, a: SxV) -> SxV {
        if op == "!"@ {
            match truth(a) {
                Some(b) => SxV::Bool(!b),
                None => SxV::Un { op: "!"@, a: Box::new(a) },
            }
        } else if op == "-"@ {
            match a {
                SxV::Num(n) => SxV::Num(negated(n)),
                _ => SxV::Un { op: "-"@, a: Box::new(a) },
            }
        } else if op == "+"@ {
            match a {
                SxV::Num(_) => a,
                SxV::Str(s) => SxV::Num(self.number_text(s)),
                _ => SxV::Un { op: "+"@, a: Box::new(a) },
            }
        } else if op == "~"@ {
            match a {
                SxV::Num(n) => SxV::Num(bit_not(n)),
                _ => SxV::Un { op: "~"@, a: Box::new(a) },
            }
        } else if op == "typeof"@ {
            match kind_name(a) {
                Some(t) => SxV::Str(t),
                None => SxV::Un { op: "typeof"@, a: Box::new(a) },
            }
        } else if op == "void"@ {
            SxV::Undef
        } else if op == "delete"@ {
            SxV::Bool(true)
        } else {
            SxV::Un { op: "!"@, a: Box::new(a) }
        }
    }

    /// The text that `+` makes of a string and a string or number.
    pub open spec fn concat(&self, l: SxV, r: SxV) -> Option<Seq<char>> {
        match (l, r) {
            (SxV::Str(a), SxV::Str(b)) => Some(a + b),
            (SxV::Str(a), SxV::Num(b)) => Some(a + self.num_text(b)),
            (SxV::Num(a), SxV::Str(b)) => Some(self.num_text(a) + b),
            _ => None,
        }
    }

    /// A binary operator applied to folded operands.
    pub open spec fn binary(&self, op: Seq<char>, l: SxV, r: SxV) -> SxV {
        let plain = SxV::Bin { op, l: Box::new(l), r: Box::new(r) };
        if (op == "==="@ || op == "=="@) && same(l, r) is Some {
            SxV::Bool(same(l, r)->0)
        } else if (op == "!=="@ || op == "!="@) && same(l, r) is Some {
            SxV::Bool(!same(l, r)->0)
        } else {
            match (l, r) {
                (SxV::Num(a), SxV::Num(b)) => match self.number_op(op, a, b) {
                    Some(v) => SxV::Num(v),
                    None => if op == "<"@ {
                        SxV::Bool(num_lt(a, b))
                    } else if op == "<="@ {
                        SxV::Bool(num_le(a, b))
                    } else if op == ">"@ {
                        SxV::Bool(num_lt(b, a))
                    } else if op == ">="@ {
                        SxV::Bool(num_le(b, a))
                    } else {
                        plain
                    },
                },
                _ => if op == "+"@ && self.concat(l, r) is Some {
                    SxV::Str(self.concat(l, r)->0)
                } else {
                    plain
                },
            }
        }
    }
}

/// Applies a unary operator to a folded operand.
pub fn fold_un<F: FloatOps>(op: &'static str, a: Sx, fl: &F) -> (r: Sx)
    requires
        fl.ok(),
    ensures
        r@ == fl.model().unary(op@, a@),
{
    if str_eq(op, "!") {
        match truthy(&a) {
            Some(b) => Sx::Bool(!b),
            None => Sx::Un { op: "!", a: Box::new(a) },
        }
    } else if str_eq(op, "-") {
        match a {
            Sx::Num(n) => Sx::Num(negate(n)),
            _ => Sx::Un { op: "-", a: Box::new(a) },
        }
    } else if str_eq(op, "+") {
        match a {
            Sx::Num(n) => Sx::Num(n),
            Sx::Str(s) => Sx::Num(js_to_number(s.as_str(), fl)),
            _ => Sx::Un { op: "+", a: Box::new(a) },
        }
    } else if str_eq(op, "~") {
        match a {
            Sx::Num(n) => Sx::Num(num_not(n)),
            _ => Sx::Un { op: "~", a: Box::new(a) },
        }
    } else if str_eq(op, "typeof") {
        match type_of(&a) {
            Some(t) => Sx::Str(own(t)),
            None => Sx::Un { op: "typeof", a: Box::new(a) },
        }
    } else if str_eq(op, "void") {
        Sx::Undef
    } else if str_eq(op, "delete") {
        Sx::Bool(true)
    } else {
        Sx::Un { op: "!", a: Box::new(a) }
    }
}

/// Applies a binary operator to folded operands.
pub fn fold_bin<F: FloatOps>(op: &'static str, l: Sx, r: Sx, fl: &F) -> (x: Sx)
    requires
        fl.ok(),
    ensures
        x@ == fl.model().binary(op@, l@, r@),
{
    let eq = strict_eq(&l, &r);
    if str_eq(op, "===") || str_eq(op, "==") {
        if let Some(b) = eq {
            return Sx::Bool(b);
        }
    }
    if str_eq(op, "!==") || str_eq(op, "!=") {
        if let Some(b) = eq {
            return Sx::Bool(!b);
        }
    }
    if let (Sx::Num(a), Sx::Num(b)) = (&l, &r) {
        let (a, b): (u64, u64) = (*a, *b);
        let v: Option<u64> = if str_eq(op, "**") {
            Some(fl.compute(ArithOp::Pow, a, b))
        } else if str_eq(op, ">>>") {
            Some(num_ushr(a, b))
        } else {
            fold_arith(op, a, b, fl)
        };
        if let Some(v) = v {
            return Sx::Num(v);
        }
        if str_eq(op, "<") {
            return Sx::Bool(less(a, b));
        }
        if str_eq(op, "<=") {
            return Sx::Bool(less_eq(a, b));
        }
        if str_eq(op, ">") {
            return Sx::Bool(less(b, a));
        }
        if str_eq(op, ">=") {
            return Sx::Bool(less_eq(b, a));
        }
        return Sx::Bin { op, l: Box::new(l), r: Box::new(r) };
    }
    if str_eq(op, "+") {
        if let (Sx::Str(a), Sx::Str(b)) = (&l, &r) {
            return Sx::Str(join2(a.as_str(), b.as_str()));
        }
        if let (Sx::Str(a), Sx::Num(b)) = (&l, &r) {
            return Sx::Str(join2(a.as_str(), format_js_num(*b, fl).as_str()));
        }
        if let (Sx::Num(a), Sx::Str(b)) = (&l, &r) {
            return Sx::Str(join2(format_js_num(*a, fl).as_str(), b.as_str()));
        }
    }
    Sx::Bin { op, l: Box::new(l), r: Box::new(r) }
}

} // verus!
