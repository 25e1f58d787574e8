use duckkit::floats::{ArithOp, Floats};
use duckkit::pipeline::fold::fold_bin;
use duckkit::pipeline::jit::{lower, verify, Ins, IntOp, JitErr};
use duckkit::pipeline::mba::{
    describe, family_and_template, simplify, structural_terms, var_name_for_arg, ConstantFold, Math,
};
use duckkit::pipeline::ops::{apply, Op, Program};
use duckkit::pipeline::parse::parse as parse_script;
use duckkit::pipeline::roles::{Translator, ROOM};
use duckkit::pipeline::statics::collect;
use duckkit::pipeline::sx::Sx;
use duckkit::pipeline::syntax::{Expr, Stmt};

fn arith(o: ArithOp, a: u64, b: u64) -> u64 {
    let (x, y) = (f64::from_bits(a), f64::from_bits(b));
    let r = match o {
        ArithOp::Add => x + y,
        ArithOp::Sub => x - y,
        ArithOp::Mul => x * y,
        ArithOp::Div => x / y,
        ArithOp::Rem => x % y,
        ArithOp::Pow => x.powf(y),
    };
    r.to_bits()
}

fn parse(s: &str) -> u64 {
    s.parse::<f64>().unwrap_or(f64::NAN).to_bits()
}

fn show(a: u64) -> String {
    format!("{}", f64::from_bits(a))
}

fn debug(a: u64) -> String {
    format!("{:?}", f64::from_bits(a))
}

fn bits(x: f64) -> u64 {
    x.to_bits()
}

fn c(x: f64) -> Op {
    Op::Const(x.to_bits())
}

fn program(ops: Vec<Op>, n_vars: usize) -> Program {
    Program { ops, n_vars }
}

fn value(ops: Vec<Op>, vars: &[f64]) -> f64 {
    let fl = Floats { arith, parse, show, debug };
    let v: Vec<u64> = vars.iter().map(|x| x.to_bits()).collect();
    f64::from_bits(program(ops, vars.len()).eval(&v, &fl))
}

enum Reg {
    Num(f64),
    Int(i32),
}

fn num(r: &Reg) -> f64 {
    match r {
        Reg::Num(x) => *x,
        Reg::Int(_) => panic!("an integer stands where a number belongs"),
    }
}

fn whole(r: &Reg) -> i32 {
    match r {
        Reg::Int(x) => *x,
        Reg::Num(_) => panic!("a number stands where an integer belongs"),
    }
}

/// Runs straight-line code as a code generator would have it run.
fn execute(code: &[Ins], result: usize, vars: &[f64]) -> f64 {
    let mut regs: Vec<Reg> = Vec::new();
    for ins in code {
        let r = match *ins {
            Ins::Const(b) => Reg::Num(f64::from_bits(b)),
            Ins::Load(i) => Reg::Num(vars[i as usize]),
            Ins::Float(o, a, b) => Reg::Num(f64::from_bits(arith(o, bits(num(&regs[a])), bits(num(&regs[b]))))),
            Ins::Neg(a) => Reg::Num(-num(&regs[a])),
            Ins::ToInt(a) => {
                let rest = num(&regs[a]) % 4294967296.0;
                Reg::Int(if rest.is_nan() { 0 } else { rest as i64 as i32 })
            }
            Ins::Mask(a) => Reg::Int(whole(&regs[a]) & 31),
            Ins::Int(o, a, b) => {
                let (x, y) = (whole(&regs[a]), whole(&regs[b]));
                Reg::Int(match o {
                    IntOp::Xor => x ^ y,
                    IntOp::And => x & y,
                    IntOp::Or => x | y,
                    IntOp::Shl => x << y,
                    IntOp::Shr => x >> y,
                    IntOp::Ushr => ((x as u32) >> y) as i32,
                })
            }
            Ins::FromInt(a) => Reg::Num(f64::from(whole(&regs[a]))),
            Ins::FromBits(a) => Reg::Num(f64::from(whole(&regs[a]) as u32)),
        };
        regs.push(r);
    }
    num(&regs[result])
}

fn words(e: JitErr) -> String {
    e.text()
}

#[test]
fn runs_programs() {
    assert_eq!(value(vec![c(2.0), c(3.0), Op::Add, c(4.0), Op::Mul], &[]), 20.0);
    assert_eq!(value(vec![Op::Var(1), Op::Var(0), Op::Sub], &[1.0, 5.0]), 4.0);
    assert_eq!(value(vec![c(7.0), c(2.0), Op::Div], &[]), 3.5);
    assert_eq!(value(vec![c(-7.0), c(4.0), Op::Mod], &[]), -3.0);
    assert_eq!(value(vec![c(5.0), Op::Neg], &[]), -5.0);
    assert_eq!(value(vec![c(6.0), c(3.0), Op::Xor], &[]), 5.0);
    assert_eq!(value(vec![c(6.0), c(3.0), Op::And], &[]), 2.0);
    assert_eq!(value(vec![c(6.0), c(3.0), Op::Or], &[]), 7.0);
    assert_eq!(value(vec![c(1.0), c(33.0), Op::Shl], &[]), 2.0);
    assert_eq!(value(vec![c(-8.0), c(1.0), Op::Shr], &[]), -4.0);
    assert_eq!(value(vec![c(-1.0), c(0.0), Op::Ushr], &[]), 4294967295.0);
    assert!(value(vec![Op::Var(3)], &[1.0]).is_nan());
    assert!(value(vec![], &[]).is_nan());
    assert_eq!(value(vec![c(1.0); 64], &[]), 1.0);
    assert!(value(vec![c(1.0); 65], &[]).is_nan());
}

#[test]
fn hashes_what_a_program_does() {
    let a = program(vec![c(1.0), Op::Var(0), Op::Add], 1);
    let b = program(vec![c(1.0), Op::Var(0), Op::Add], 1);
    let d = program(vec![c(2.0), Op::Var(0), Op::Add], 1);
    assert_eq!(a.content_hash(), b.content_hash());
    assert_ne!(a.content_hash(), d.content_hash());
}

#[test]
fn straight_line_code_gives_what_the_program_gives() {
    let fl = Floats { arith, parse, show, debug };
    let programs = vec![
        vec![Op::Var(0), c(2.5), Op::Mul, Op::Var(1), Op::Neg, Op::Sub],
        vec![Op::Var(0), Op::Var(1), Op::Xor, c(3.0), Op::And, Op::Var(0), Op::Or],
        vec![Op::Var(0), c(33.0), Op::Shl, Op::Var(1), c(-31.0), Op::Shr, Op::Add],
        vec![Op::Var(0), c(1.0), Op::Ushr, Op::Var(1), Op::Div, c(7.0), Op::Mod],
        vec![c(1.0), c(2.0)],
    ];
    for ops in programs {
        let p = program(ops, 2);
        let l = lower(&p).map_err(words).unwrap();
        for vars in [[3.0, 4.0], [-5.5, 1e10], [f64::NAN, 0.0], [1e12, -1.0]] {
            let v: Vec<u64> = vars.iter().map(|x: &f64| x.to_bits()).collect();
            let given = execute(&l.code, l.result, &vars);
            assert_eq!(given.to_bits(), p.eval(&v, &fl));
            assert!(verify(&p, given.to_bits(), &v, &fl));
            assert!(!verify(&p, given.to_bits() ^ 1, &v, &fl));
        }
    }
}

#[test]
fn native_code_agrees_on_wild_numbers() {
    let fl = Floats { arith, parse, show, debug };
    let p = program(vec![c(-1.0), c(0.0), Op::Ushr], 0);
    let l = lower(&p).map_err(words).unwrap();
    let given = execute(&l.code, l.result, &[]);
    assert_eq!(given, 4294967295.0);
    assert!(verify(&p, given.to_bits(), &[], &fl));
    let p = program(vec![Op::Var(0), c(0.0), Op::Or], 1);
    let l = lower(&p).map_err(words).unwrap();
    for (wild, low) in [(9223372036854777856.0, 2048.0), (-9223372036854777856.0, -2048.0), (1e300, 0.0), (f64::INFINITY, 0.0)] {
        assert_eq!(execute(&l.code, l.result, &[wild]), low);
        assert_eq!(f64::from_bits(p.eval(&[bits(wild)], &fl)), low);
    }
}

#[test]
fn a_program_may_fail_before_it_takes_too_much() {
    let missing = vec![Op::Var(0), Op::Add];
    assert!(value(missing, &[]).is_nan());
    let mut full = vec![c(1.0); 65];
    full.extend(vec![Op::Add; 70]);
    assert!(value(full, &[]).is_nan());
}

#[test]
fn refuses_programs_without_a_result() {
    assert_eq!(lower(&program(vec![], 0)).err().map(words).unwrap(), "не реализовано: нет результата");
    assert_eq!(lower(&program(vec![c(1.0), Op::Add], 0)).err().map(words).unwrap(), "не реализовано: стек пуст");
    assert_eq!(lower(&program(vec![Op::Neg], 0)).err().map(words).unwrap(), "не реализовано: стек пуст");
    assert_eq!(JitErr::Isa("x".into()).text(), "isa: x");
    assert_eq!(JitErr::Define("x".into()).text(), "define: x");
    assert_eq!(JitErr::Canary.text(), "канарейка: jit разошёлся с интерпретатором");
}

#[test]
fn folds_constants() {
    let fl = Floats { arith, parse, show, debug };
    let fold = |op: Op, x: f64, y: f64| {
        let n = Math::Bin { op, l: 0, r: 1 };
        f64::from_bits(ConstantFold.make(&n, Some(bits(x)), Some(bits(y)), &fl).unwrap())
    };
    assert_eq!(fold(Op::Add, 2.0, 3.0), 5.0);
    assert_eq!(fold(Op::Xor, -1.0, 1.0), -2.0);
    assert_eq!(fold(Op::Shl, 2147483647.0, 1.0), 4294967294.0);
    assert_eq!(fold(Op::Shl, -2147483648.0, 31.0), -4611686018427387904.0);
    assert_eq!(fold(Op::Shr, -8.0, 1.0), -4.0);
    assert_eq!(fold(Op::Ushr, 8.0, 1.0), 4.0);
    assert_eq!(fold(Op::Ushr, -1.0, 0.0), 18446744073709551615.0);
    assert_eq!(f64::from_bits(apply(Op::Shl, bits(2147483647.0), bits(1.0), &fl)), -2.0);
    assert_eq!(ConstantFold.make(&Math::Num(7), None, None, &fl), Some(7));
    assert_eq!(ConstantFold.make(&Math::Var("a".into()), None, None, &fl), None);
    assert_eq!(ConstantFold.make(&Math::Neg(0), Some(bits(2.0)), None, &fl), Some(bits(-2.0)));
    assert_eq!(ConstantFold.make(&Math::Bin { op: Op::Add, l: 0, r: 1 }, Some(1), None, &fl), None);
}

/// `a / 2 + a * b + -a + a ^ 3 ...` laid out with the operands first.
fn sum_of_products() -> Vec<Math> {
    vec![
        Math::Var("a".into()),
        Math::Num(bits(2.0)),
        Math::Bin { op: Op::Div, l: 0, r: 1 },
        Math::Var("b".into()),
        Math::Bin { op: Op::Mul, l: 0, r: 3 },
        Math::Bin { op: Op::Add, l: 2, r: 4 },
        Math::Neg(3),
        Math::Bin { op: Op::Add, l: 5, r: 6 },
        Math::Bin { op: Op::Sub, l: 7, r: 3 },
    ]
}

#[test]
fn tells_the_family() {
    let (terms, raw) = structural_terms(&sum_of_products());
    assert_eq!(raw, 4);
    let shown: Vec<String> =
        terms.iter().map(|t| format!("{}/{}", String::from_utf8_lossy(&t.num), String::from_utf8_lossy(&t.den))).collect();
    assert_eq!(shown, vec!["SV/", "V/N", "VV/"]);
    let (family, template) = family_and_template(&terms, raw);
    assert_eq!(family, "duck-vqd-checksum-v1:sum_of_SVN_products");
    assert_eq!(template, xxhash_rust::xxh3::xxh3_64(b"SV+V/N+VV+"));
    let (family, template) = family_and_template(&terms, 3);
    assert_eq!(family, "DRIFT:10");
    assert_eq!(template, xxhash_rust::xxh3::xxh3_64(b"SV+V/N+VV+"));
}

#[test]
fn describes_a_simplified_checksum() {
    let out = describe(30, &sum_of_products(), "(sum)".to_string());
    assert_eq!(out.slot_symbols, vec!["a", "b"]);
    assert_eq!(out.program.n_vars, 2);
    assert_eq!(
        out.program.ops,
        vec![
            Op::Var(0),
            c(2.0),
            Op::Div,
            Op::Var(0),
            Op::Var(1),
            Op::Mul,
            Op::Add,
            Op::Var(1),
            Op::Neg,
            Op::Add,
            Op::Var(1),
            Op::Sub,
        ]
    );
    assert_eq!((out.report.raw_ops, out.report.canonical_ops), (30, 12));
    assert_eq!(out.report.full_hash, xxhash_rust::xxh3::xxh3_64(b"(sum)"));
    assert_eq!(
        out.report.family_hash,
        xxhash_rust::xxh3::xxh3_64(b"duck-vqd-checksum-v1:sum_of_SVN_products")
    );
    let one = |_: &Vec<Math>| (vec![Math::Num(bits(3.0))], "3".to_string());
    let out = simplify(&sum_of_products(), &one);
    assert_eq!(out.report.raw_ops, 9);
    assert_eq!(out.program.ops, vec![c(3.0)]);
    assert_eq!(out.report.family, "DRIFT:2");
}

#[test]
fn names_variables() {
    let fl = Floats { arith, parse, show, debug };
    assert_eq!(var_name_for_arg(bits(255.0), &fl), "aff");
    assert_eq!(var_name_for_arg(bits(0.0), &fl), "a0");
    assert_eq!(var_name_for_arg(bits(1.5), &fl), "a1.5");
    assert_eq!(var_name_for_arg(bits(-3.0), &fl), "a-3");
    assert_eq!(var_name_for_arg(bits(1e9), &fl), "a1000000000");
}

#[test]
fn the_template_ignores_numbers_and_names() {
    let first = describe(9, &sum_of_products(), "(one)".to_string());
    let other = sum_of_products()
        .into_iter()
        .map(|m| match m {
            Math::Num(_) => Math::Num(bits(77.0)),
            Math::Var(s) => Math::Var(format!("{s}{s}")),
            m => m,
        })
        .collect();
    let second = describe(9, &other, "(two)".to_string());
    assert_eq!(first.report.template_hash, second.report.template_hash);
    assert_eq!(first.report.family_hash, second.report.family_hash);
    assert_eq!(first.report.family, second.report.family);
    assert_ne!(first.report.full_hash, second.report.full_hash);
    assert_ne!(first.program.ops, second.program.ops);
    assert_eq!(second.slot_symbols, vec!["aa", "bb"]);
}

#[test]
fn operators_mean_one_thing() {
    let fl = Floats { arith, parse, show, debug };
    let pairs = [
        ("+", Op::Add),
        ("-", Op::Sub),
        ("*", Op::Mul),
        ("/", Op::Div),
        ("%", Op::Mod),
        ("^", Op::Xor),
        ("&", Op::And),
        ("|", Op::Or),
        ("<<", Op::Shl),
        (">>", Op::Shr),
        (">>>", Op::Ushr),
    ];
    for (sign, op) in pairs {
        for (x, y) in [(7.0, 2.0), (-9.5, 3.0), (1e12, -1.0), (4294967295.0, 33.0)] {
            let folded = match fold_bin(sign, Sx::Num(bits(x)), Sx::Num(bits(y)), &fl) {
                Sx::Num(n) => n,
                _ => panic!("{sign} leaves two numbers unfolded"),
            };
            assert_eq!(folded, apply(op, bits(x), bits(y), &fl));
            assert_eq!(f64::from_bits(folded), value(vec![c(x), c(y), op], &[]));
        }
    }
    assert!(matches!(fold_bin("<", Sx::Num(bits(1.0)), Sx::Num(bits(2.0)), &fl), Sx::Bool(true)));
}

/// How the parser itself shows the expression that a script begins with.
fn dumped(script: &str) -> String {
    let allocator = oxc_allocator::Allocator::default();
    let ret = oxc_parser::Parser::new(&allocator, script, oxc_span::SourceType::default()).parse();
    match &ret.program.body[0] {
        oxc_ast::ast::Statement::ExpressionStatement(e) => format!("{:?}", e.expression),
        _ => panic!("an expression was written"),
    }
}

fn refusal(e: &Expr) -> String {
    let fl = Floats { arith, parse, show, debug };
    let st = collect(&Vec::new(), &fl);
    let mut t = Translator::new(&st);
    let r = t.expr(e, &fl);
    r.err().map(|e| e.0).unwrap()
}

#[test]
fn what_has_no_translation_is_shown() {
    let scripts = [
        "name", "this", "null", "true", "f('x'), 1", "a.b", "a[0]", "new A(1)", "a++", "a || b", "a ? b : c", "a = 1",
        "[1, 2, 3]", "async () => await 1", "() => 1", "`t${a}`", "alpha?.beta.gamma.delta", "/re/g", "/я*/",
    ];
    for script in scripts {
        let program = parse_script(script, ROOM).unwrap();
        let e = match &program[0] {
            Stmt::Value(e) => e,
            _ => panic!("an expression was written"),
        };
        let expected: String = dumped(script).chars().take(120).collect();
        assert_eq!(refusal(e), expected, "{script}");
    }
    let program = parse_script("1 - name", ROOM).unwrap();
    let e = match &program[0] {
        Stmt::Value(e) => e,
        _ => panic!("an expression was written"),
    };
    assert!(refusal(e).starts_with("Identifier(IdentifierReference"));
    let program = parse_script("name", 0).unwrap();
    assert!(matches!(&program[0], Stmt::Value(Expr::Ident(n, t)) if n == "name" && t.is_empty()));
    let wide = format!("[`{}`]", "я😀".repeat(200));
    let program = parse_script(&wide, ROOM).unwrap();
    let e = match &program[0] {
        Stmt::Value(e) => e,
        _ => panic!("an expression was written"),
    };
    assert_eq!(refusal(e), dumped(&wide).chars().take(120).collect::<String>());
}
