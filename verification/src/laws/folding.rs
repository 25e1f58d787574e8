//! Folding constants gives what running the script would give.
use vstd::prelude::*;

#[allow(unused_imports)]
use crate::floats::{ArithOp, FloatsV};
#[allow(unused_imports)]
use crate::jsnum::{bits_of_int, lemma_int32_round_trip, lemma_low_bits, lemma_whole_order};
#[allow(unused_imports)]
use crate::pipeline::fold::{same, truth};
#[allow(unused_imports)]
use crate::pipeline::sx::SxV;

verus! {

/// How the operators are written.
proof fn lemma_operators()
    ensures
        "<"@.len() == 1 && "<"@[0] == '<',
        ">"@.len() == 1 && ">"@[0] == '>',
        "<="@.len() == 2 && "<="@[0] == '<' && "<="@[1] == '=',
        ">="@.len() == 2 && ">="@[0] == '>' && ">="@[1] == '=',
        "=="@.len() == 2 && "=="@[0] == '=' && "=="@[1] == '=',
        "!="@.len() == 2 && "!="@[0] == '!' && "!="@[1] == '=',
        "==="@.len() == 3 && "==="@[0] == '=' && "==="@[1] == '=' && "==="@[2] == '=',
        "!=="@.len() == 3 && "!=="@[0] == '!' && "!=="@[1] == '=' && "!=="@[2] == '=',
        "+"@.len() == 1 && "+"@[0] == '+',
        "-"@.len() == 1 && "-"@[0] == '-',
        "*"@.len() == 1 && "*"@[0] == '*',
        "/"@.len() == 1 && "/"@[0] == '/',
        "%"@.len() == 1 && "%"@[0] == '%',
        "**"@.len() == 2 && "**"@[0] == '*' && "**"@[1] == '*',
        "^"@.len() == 1 && "^"@[0] == '^',
        "&"@.len() == 1 && "&"@[0] == '&',
        "|"@.len() == 1 && "|"@[0] == '|',
        "<<"@.len() == 2 && "<<"@[0] == '<' && "<<"@[1] == '<',
        ">>"@.len() == 2 && ">>"@[0] == '>' && ">>"@[1] == '>',
        ">>>"@.len() == 3 && ">>>"@[0] == '>' && ">>>"@[1] == '>' && ">>>"@[2] == '>',
        "!"@.len() == 1 && "!"@[0] == '!',
        "~"@.len() == 1 && "~"@[0] == '~',
        "typeof"@.len() == 6 && "typeof"@[0] == 't' && "typeof"@[1] == 'y' && "typeof"@[2] == 'p' && "typeof"@[3] == 'e' && "typeof"@[4] == 'o' && "typeof"@[5] == 'f',
        "void"@.len() == 4 && "void"@[0] == 'v' && "void"@[1] == 'o' && "void"@[2] == 'i' && "void"@[3] == 'd',
        "delete"@.len() == 6 && "delete"@[0] == 'd' && "delete"@[1] == 'e' && "delete"@[2] == 'l' && "delete"@[3] == 'e' && "delete"@[4] == 't' && "delete"@[5] == 'e',
{
    reveal_strlit("<");
    reveal_strlit(">");
    reveal_strlit("<=");
    reveal_strlit(">=");
    reveal_strlit("==");
    reveal_strlit("!=");
    reveal_strlit("===");
    reveal_strlit("!==");
    reveal_strlit("+");
    reveal_strlit("-");
    reveal_strlit("*");
    reveal_strlit("/");
    reveal_strlit("%");
    reveal_strlit("**");
    reveal_strlit("^");
    reveal_strlit("&");
    reveal_strlit("|");
    reveal_strlit("<<");
    reveal_strlit(">>");
    reveal_strlit(">>>");
    reveal_strlit("!");
    reveal_strlit("~");
    reveal_strlit("typeof");
    reveal_strlit("void");
    reveal_strlit("delete");
}

proof fn lemma_comparison_forms(fl: FloatsV, x: u64, y: u64)
    ensures
        fl.number_op("<"@, x, y) is None,
        fl.number_op(">"@, x, y) is None,
        fl.number_op("<="@, x, y) is None,
        fl.number_op(">="@, x, y) is None,
        ">"@ != "<"@ && ">"@ != "<="@ && ">"@ != ">="@,
        "<="@ != "<"@ && ">="@ != "<"@ && ">="@ != "<="@,
        "<"@ != "==="@ && "<"@ != "=="@ && "<"@ != "!=="@ && "<"@ != "!="@,
        ">"@ != "==="@ && ">"@ != "=="@ && ">"@ != "!=="@ && ">"@ != "!="@,
        "<="@ != "==="@ && "<="@ != "=="@ && "<="@ != "!=="@ && "<="@ != "!="@,
        ">="@ != "==="@ && ">="@ != "=="@ && ">="@ != "!=="@ && ">="@ != "!="@,
        "!=="@ != "==="@ && "!=="@ != "=="@ && "!="@ != "==="@ && "!="@ != "=="@,
{
    lemma_operators();
}

/// Comparing two numbers: turning an order round swaps the operands, `<=` is `<` or
/// `===`, an inequality is the opposite of an equality, and without a NaN exactly one of
/// less, equal and greater holds. With a NaN only the inequalities hold.
pub proof fn lemma_comparisons(fl: FloatsV, x: u64, y: u64)
    ensures
        fl.binary(">"@, SxV::Num(x), SxV::Num(y)) == fl.binary("<"@, SxV::Num(y), SxV::Num(x)),
        fl.binary(">="@, SxV::Num(x), SxV::Num(y)) == fl.binary("<="@, SxV::Num(y), SxV::Num(x)),
        fl.binary("=="@, SxV::Num(x), SxV::Num(y)) == fl.binary("==="@, SxV::Num(x), SxV::Num(y)),
        fl.binary("!="@, SxV::Num(x), SxV::Num(y)) == fl.binary("!=="@, SxV::Num(x), SxV::Num(y)),
        fl.binary("<"@, SxV::Num(x), SxV::Num(y)) is Bool,
        fl.binary("<="@, SxV::Num(x), SxV::Num(y)) is Bool,
        fl.binary("==="@, SxV::Num(x), SxV::Num(y)) is Bool,
        fl.binary("!=="@, SxV::Num(x), SxV::Num(y)) == SxV::Bool(
            !fl.binary("==="@, SxV::Num(x), SxV::Num(y))->Bool_0,
        ),
        fl.binary("<="@, SxV::Num(x), SxV::Num(y))->Bool_0 == (fl.binary(
            "<"@,
            SxV::Num(x),
            SxV::Num(y),
        )->Bool_0 || fl.binary("==="@, SxV::Num(x), SxV::Num(y))->Bool_0),
        ({
            let lt = fl.binary("<"@, SxV::Num(x), SxV::Num(y))->Bool_0;
            let gt = fl.binary(">"@, SxV::Num(x), SxV::Num(y))->Bool_0;
            let eq = fl.binary("==="@, SxV::Num(x), SxV::Num(y))->Bool_0;
            let nan = x % 0x8000_0000_0000_0000 > 0x7ff0_0000_0000_0000 || y % 0x8000_0000_0000_0000
                > 0x7ff0_0000_0000_0000;
            &&& nan ==> !lt && !gt && !eq
            &&& !nan ==> lt || gt || eq
            &&& !(lt && gt) && !(lt && eq) && !(gt && eq)
        }),
{
    lemma_comparison_forms(fl, x, y);
    lemma_comparison_forms(fl, y, x);
}

/// Comparing whole numbers is comparing integers.
pub proof fn lemma_whole_comparisons(fl: FloatsV, a: int, b: int)
    requires
        -0x20_0000_0000_0000 < a < 0x20_0000_0000_0000,
        -0x20_0000_0000_0000 < b < 0x20_0000_0000_0000,
    ensures
        ({
            let x = SxV::Num(bits_of_int(a) as u64);
            let y = SxV::Num(bits_of_int(b) as u64);
            &&& fl.binary("<"@, x, y) == SxV::Bool(a < b)
            &&& fl.binary("<="@, x, y) == SxV::Bool(a <= b)
            &&& fl.binary(">"@, x, y) == SxV::Bool(a > b)
            &&& fl.binary(">="@, x, y) == SxV::Bool(a >= b)
            &&& fl.binary("==="@, x, y) == SxV::Bool(a == b)
            &&& fl.binary("=="@, x, y) == SxV::Bool(a == b)
            &&& fl.binary("!=="@, x, y) == SxV::Bool(a != b)
            &&& fl.binary("!="@, x, y) == SxV::Bool(a != b)
        }),
{
    lemma_whole_order(a, b);
    lemma_whole_order(b, a);
    lemma_comparison_forms(fl, bits_of_int(a) as u64, bits_of_int(b) as u64);
}

proof fn lemma_bit_forms(fl: FloatsV, x: u64, y: u64)
    ensures
        fl.binary("&"@, SxV::Num(x), SxV::Num(y)) == SxV::Num(crate::jsnum::bit_and(x, y)),
        fl.binary("|"@, SxV::Num(x), SxV::Num(y)) == SxV::Num(crate::jsnum::bit_or(x, y)),
        fl.binary("^"@, SxV::Num(x), SxV::Num(y)) == SxV::Num(crate::jsnum::bit_xor(x, y)),
        fl.binary("<<"@, SxV::Num(x), SxV::Num(y)) == SxV::Num(crate::jsnum::shift_left(x, y)),
        fl.binary(">>"@, SxV::Num(x), SxV::Num(y)) == SxV::Num(crate::jsnum::shift_right(x, y)),
        fl.binary(">>>"@, SxV::Num(x), SxV::Num(y)) == SxV::Num(
            crate::jsnum::shift_right_zero(x, y),
        ),
{
    lemma_operators();
}

/// Operations on the bits of two integers of 32 bits are those of the integers. A shift
/// takes the low five bits of its second operand; `>>` keeps the sign, `>>>` takes the
/// bits as a number without one.
pub proof fn lemma_bit_operations(fl: FloatsV, a: i32, b: i32)
    ensures
        ({
            let x = SxV::Num(bits_of_int(a as int) as u64);
            let y = SxV::Num(bits_of_int(b as int) as u64);
            let by = b as u32 % 32;
            &&& fl.binary("&"@, x, y) == SxV::Num(bits_of_int((a & b) as int) as u64)
            &&& fl.binary("|"@, x, y) == SxV::Num(bits_of_int((a | b) as int) as u64)
            &&& fl.binary("^"@, x, y) == SxV::Num(bits_of_int((a ^ b) as int) as u64)
            &&& fl.binary("<<"@, x, y) == SxV::Num(bits_of_int((a << by) as int) as u64)
            &&& fl.binary(">>"@, x, y) == SxV::Num(bits_of_int((a >> by) as int) as u64)
            &&& fl.binary(">>>"@, x, y) == SxV::Num(
                bits_of_int(((a as u32) >> by) as int) as u64,
            )
        }),
{
    let x = bits_of_int(a as int) as u64;
    let y = bits_of_int(b as int) as u64;
    lemma_bit_forms(fl, x, y);
    lemma_int32_round_trip(a);
    lemma_int32_round_trip(b);
    lemma_low_bits(a as int);
    lemma_low_bits(b as int);
    lemma_low_word(a, crate::jsnum::uint32_of(x));
    lemma_low_word(b, crate::jsnum::uint32_of(y));
}

proof fn lemma_low_word(a: i32, u: u32)
    requires
        (u - a) % 0x1_0000_0000 == 0,
    ensures
        u == a as u32,
{
    if a >= 0 {
        assert(a as u32 == a);
    } else {
        assert(a as u32 == a + 0x1_0000_0000) by (bit_vector)
            requires
                a < 0,
        ;
    }
}

/// The rounding operators hand their operands on in the order in which they stand.
pub proof fn lemma_arithmetic(fl: FloatsV, x: u64, y: u64)
    ensures
        fl.binary("+"@, SxV::Num(x), SxV::Num(y)) == SxV::Num((fl.op)(ArithOp::Add, x, y)),
        fl.binary("-"@, SxV::Num(x), SxV::Num(y)) == SxV::Num((fl.op)(ArithOp::Sub, x, y)),
        fl.binary("*"@, SxV::Num(x), SxV::Num(y)) == SxV::Num((fl.op)(ArithOp::Mul, x, y)),
        fl.binary("/"@, SxV::Num(x), SxV::Num(y)) == SxV::Num((fl.op)(ArithOp::Div, x, y)),
        fl.binary("%"@, SxV::Num(x), SxV::Num(y)) == SxV::Num((fl.op)(ArithOp::Rem, x, y)),
        fl.binary("**"@, SxV::Num(x), SxV::Num(y)) == SxV::Num((fl.op)(ArithOp::Pow, x, y)),
{
    lemma_operators();
}

/// What is false as a condition: `false`, both zeros, a NaN, the empty string,
/// `undefined` and `null`. Every other literal is true, and so are arrays, objects,
/// functions and classes, whatever they hold.
pub proof fn lemma_truth(n: u64, s: Seq<char>, b: bool, items: Seq<SxV>)
    ensures
        truth(SxV::Bool(b)) == Some(b),
        truth(SxV::Num(n)) == Some(
            0 < n % 0x8000_0000_0000_0000 <= 0x7ff0_0000_0000_0000,
        ),
        truth(SxV::Str(s)) == Some(s != Seq::<char>::empty()),
        truth(SxV::Undef) == Some(false),
        truth(SxV::Null) == Some(false),
        truth(SxV::Arr(items)) == Some(true),
        truth(SxV::Ref(s)) is None,
{
    assert(s.len() == 0 ==> s =~= Seq::<char>::empty());
}

/// A name, an access, a call or an unfolded operation is neither true nor false yet.
pub proof fn lemma_truth_open(x: SxV)
    requires
        x is Ref || x is Member || x is Index || x is Call || x is New || x is Bin || x is Un
            || x is Log || x is Cond || x is Assign,
    ensures
        truth(x) is None,
{
}

/// Objects, functions and classes are true.
pub proof fn lemma_truth_of_things(x: SxV)
    requires
        x is Obj || x is Fn || x is Class || x is Arr,
    ensures
        truth(x) == Some(true),
{
}

/// `!` turns a truth value round, so twice it gives the truth value back; where there is
/// none it stays in the expression.
pub proof fn lemma_not(fl: FloatsV, a: SxV)
    ensures
        truth(a) is Some ==> fl.unary("!"@, a) == SxV::Bool(!truth(a)->0),
        truth(a) is Some ==> fl.unary("!"@, fl.unary("!"@, a)) == SxV::Bool(truth(a)->0),
        truth(a) is None ==> fl.unary("!"@, a) == (SxV::Un { op: "!"@, a: Box::new(a) }),
{
    lemma_operators();
}

/// The unary operators on whole numbers, and on what is no number.
pub proof fn lemma_unary(fl: FloatsV, n: int, m: i32, x: u64, a: SxV)
    requires
        -0x20_0000_0000_0000 < n < 0x20_0000_0000_0000,
        n != 0,
    ensures
        fl.unary("-"@, SxV::Num(bits_of_int(n) as u64)) == SxV::Num(bits_of_int(-n) as u64),
        fl.unary("-"@, fl.unary("-"@, SxV::Num(x))) == SxV::Num(x),
        fl.unary("-"@, SxV::Num(x)) != SxV::Num(x),
        fl.unary("+"@, SxV::Num(x)) == SxV::Num(x),
        fl.unary("~"@, SxV::Num(bits_of_int(m as int) as u64)) == SxV::Num(
            bits_of_int(-1 - m) as u64,
        ),
        fl.unary("void"@, a) == SxV::Undef,
        fl.unary("delete"@, a) == SxV::Bool(true),
{
    lemma_operators();
    lemma_whole_order(n, n);
    lemma_int32_round_trip(m);
}

/// What `typeof` says.
pub proof fn lemma_typeof(fl: FloatsV, n: u64, s: Seq<char>, b: bool, items: Seq<SxV>, x: SxV)
    ensures
        fl.unary("typeof"@, SxV::Undef) == SxV::Str("undefined"@),
        fl.unary("typeof"@, SxV::Null) == SxV::Str("object"@),
        fl.unary("typeof"@, SxV::Bool(b)) == SxV::Str("boolean"@),
        fl.unary("typeof"@, SxV::Num(n)) == SxV::Str("number"@),
        fl.unary("typeof"@, SxV::Str(s)) == SxV::Str("string"@),
        fl.unary("typeof"@, SxV::Arr(items)) == SxV::Str("object"@),
        x is Fn ==> fl.unary("typeof"@, x) == SxV::Str("function"@),
        x is Obj || x is Class ==> fl.unary("typeof"@, x) == SxV::Str("object"@),
        fl.unary("typeof"@, SxV::Ref(s)) is Un,
{
    lemma_operators();
}

/// Equality of values that are not both numbers: strings and truth values are equal when
/// they are the same, `undefined` and `null` equal each other, and a string or a number
/// equals neither of them and no truth value.
pub proof fn lemma_equalities(fl: FloatsV, s: Seq<char>, t: Seq<char>, n: u64, b: bool, c: bool)
    ensures
        fl.binary("==="@, SxV::Str(s), SxV::Str(t)) == SxV::Bool(s == t),
        fl.binary("!=="@, SxV::Str(s), SxV::Str(t)) == SxV::Bool(s != t),
        fl.binary("=="@, SxV::Str(s), SxV::Str(t)) == SxV::Bool(s == t),
        fl.binary("!="@, SxV::Str(s), SxV::Str(t)) == SxV::Bool(s != t),
        fl.binary("==="@, SxV::Bool(b), SxV::Bool(c)) == SxV::Bool(b == c),
        fl.binary("!=="@, SxV::Bool(b), SxV::Bool(c)) == SxV::Bool(b != c),
        fl.binary("==="@, SxV::Undef, SxV::Undef) == SxV::Bool(true),
        fl.binary("==="@, SxV::Null, SxV::Null) == SxV::Bool(true),
        fl.binary("==="@, SxV::Undef, SxV::Null) == SxV::Bool(true),
        fl.binary("==="@, SxV::Null, SxV::Undef) == SxV::Bool(true),
        fl.binary("==="@, SxV::Undef, SxV::Num(n)) == SxV::Bool(false),
        fl.binary("==="@, SxV::Null, SxV::Num(n)) == SxV::Bool(false),
        fl.binary("==="@, SxV::Bool(b), SxV::Num(n)) == SxV::Bool(false),
        fl.binary("==="@, SxV::Undef, SxV::Str(s)) == SxV::Bool(false),
        fl.binary("==="@, SxV::Null, SxV::Str(s)) == SxV::Bool(false),
        fl.binary("==="@, SxV::Bool(b), SxV::Str(s)) == SxV::Bool(false),
        fl.binary("==="@, SxV::Num(n), SxV::Bool(b)) == SxV::Bool(false),
        fl.binary("==="@, SxV::Str(s), SxV::Undef) == SxV::Bool(false),
        fl.binary("!=="@, SxV::Str(s), SxV::Undef) == SxV::Bool(true),
        fl.binary("!=="@, SxV::Num(n), SxV::Null) == SxV::Bool(true),
        same(SxV::Num(n), SxV::Str(s)) is None,
{
    lemma_operators();
}

/// Equality does not depend on the order of its operands.
pub proof fn lemma_equality_symmetric(l: SxV, r: SxV)
    ensures
        same(l, r) == same(r, l),
{
}

/// `+` puts a string and a string or a number together in the order in which they stand.
pub proof fn lemma_joining(fl: FloatsV, s: Seq<char>, t: Seq<char>, n: u64)
    ensures
        fl.binary("+"@, SxV::Str(s), SxV::Str(t)) == SxV::Str(s + t),
        fl.binary("+"@, SxV::Str(s), SxV::Num(n)) == SxV::Str(s + fl.num_text(n)),
        fl.binary("+"@, SxV::Num(n), SxV::Str(s)) == SxV::Str(fl.num_text(n) + s),
{
    lemma_operators();
}

/// An operation on something that is no literal stays as it is written.
pub proof fn lemma_unfolded(fl: FloatsV, op: Seq<char>, name: Seq<char>, y: SxV)
    ensures
        fl.binary(op, SxV::Ref(name), y) == (SxV::Bin {
            op,
            l: Box::new(SxV::Ref(name)),
            r: Box::new(y),
        }),
        fl.binary(op, y, SxV::Ref(name)) == (SxV::Bin {
            op,
            l: Box::new(y),
            r: Box::new(SxV::Ref(name)),
        }),
{
}

} // verus!
