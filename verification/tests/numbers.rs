use duckkit::floats::{ArithOp, Floats};
use duckkit::jsnum::{
    absolute, as_signed, equal, finite, format_js_num, from_i64, from_u64, integral, is_js_ws, js_parse_int, js_parse_int_radix,
    json_escape_into, less, less_eq, nan, negate, num_and, num_not, num_or, num_shl, num_shr, num_ushr, num_xor, to_i64, to_int32,
    to_uint32, zero,
};

fn arith(o: ArithOp, a: u64, b: u64) -> u64 {
    let (x, y) = (f64::from_bits(a), f64::from_bits(b));
    let r = match o {
        ArithOp::Add => x + y,
        ArithOp::Sub => x - y,
        ArithOp::Mul => x * y,
        ArithOp::Div => x / y,
        ArithOp::Rem => x % y,
        ArithOp::Pow => x.powf(y),
    };
    r.to_bits()
}

fn parse(s: &str) -> u64 {
    s.parse::<f64>().unwrap_or(f64::NAN).to_bits()
}

fn show(a: u64) -> String {
    format!("{}", f64::from_bits(a))
}

fn debug(a: u64) -> String {
    format!("{:?}", f64::from_bits(a))
}

fn samples() -> Vec<f64> {
    let mut v = vec![
        0.0,
        -0.0,
        0.5,
        -0.5,
        1.0,
        -1.0,
        1.5,
        -1.9,
        255.0,
        2147483647.0,
        2147483648.0,
        -2147483648.0,
        -2147483649.0,
        4294967295.0,
        4294967296.0,
        4294967297.5,
        -4294967297.0,
        9007199254740991.0,
        9007199254740993.0,
        9.223372036854775e18,
        9223372036854775808.0,
        -9223372036854775808.0,
        1.8446744073709552e19,
        1e21,
        1e300,
        -1e300,
        5e-324,
        f64::MAX,
        f64::INFINITY,
        f64::NEG_INFINITY,
        f64::NAN,
    ];
    let mut x = 0x1234_5678_9abc_def1u64;
    for _ in 0..400 {
        duckkit::solver::sample_u64(&mut x, 1);
        v.push(f64::from_bits(x));
        v.push(x as i64 as f64 / 65536.0);
    }
    v
}

fn int32(x: f64) -> i32 {
    let m = x.trunc();
    if !m.is_finite() {
        return 0;
    }
    m.rem_euclid(4294967296.0) as u32 as i32
}

#[test]
fn reads_numbers_off_their_bits() {
    for x in samples() {
        let b = x.to_bits();
        assert_eq!(to_int32(b), int32(x), "{x}");
        assert_eq!(to_uint32(b), int32(x) as u32, "{x}");
        assert_eq!(to_i64(b), x as i64, "{x}");
        assert_eq!(nan(b), x.is_nan());
        assert_eq!(finite(b), x.is_finite());
        assert_eq!(zero(b), x == 0.0);
        assert_eq!(negate(b), (-x).to_bits());
        assert_eq!(absolute(b), x.abs().to_bits());
        if x.is_finite() {
            assert_eq!(integral(b), x.fract() == 0.0, "{x}");
        }
        for y in [0.0, -0.0, 1.0, -3.5, f64::NAN, f64::INFINITY, x] {
            let c = y.to_bits();
            assert_eq!(less(b, c), x < y);
            assert_eq!(less_eq(b, c), x <= y);
            assert_eq!(equal(b, c), x == y);
        }
    }
    assert_eq!(as_signed(0xffff_ffff), -1);
}

#[test]
fn writes_whole_numbers_to_bits() {
    for n in [0u64, 1, 2, 3, 1 << 52, (1 << 53) - 1, (1 << 53) + 1, (1 << 53) + 3, (1 << 63) + 1025, u64::MAX, 0x8000_0000_0000_0400] {
        assert_eq!(from_u64(n), (n as f64).to_bits(), "{n}");
    }
    for n in [0i64, 1, -1, i64::MIN, i64::MAX, -(1 << 53) - 1, 1 << 40] {
        assert_eq!(from_i64(n), (n as f64).to_bits(), "{n}");
    }
    for n in [0i32, 1, -1, i32::MIN, i32::MAX, 12345, -54321] {
        assert_eq!(to_int32(from_i64(n as i64)), n);
    }
}

#[test]
fn works_on_bits_as_javascript_does() {
    for x in samples() {
        for y in [0.0, 1.0, 31.0, 32.0, 33.5, -1.0, 4294967297.0, f64::NAN] {
            let (a, b) = (x.to_bits(), y.to_bits());
            let (i, j) = (int32(x), int32(y));
            let s = (j as u32) & 31;
            assert_eq!(f64::from_bits(num_and(a, b)), f64::from(i & j));
            assert_eq!(f64::from_bits(num_or(a, b)), f64::from(i | j));
            assert_eq!(f64::from_bits(num_xor(a, b)), f64::from(i ^ j));
            assert_eq!(f64::from_bits(num_not(a)), f64::from(!i));
            assert_eq!(f64::from_bits(num_shl(a, b)), f64::from(i.wrapping_shl(s)));
            assert_eq!(f64::from_bits(num_shr(a, b)), f64::from(i.wrapping_shr(s)));
            assert_eq!(f64::from_bits(num_ushr(a, b)), f64::from((i as u32).wrapping_shr(s)));
        }
    }
}

#[test]
fn parses_integers() {
    let fl = Floats { arith, parse, show, debug };
    let p = |s: &str| f64::from_bits(js_parse_int(s, &fl));
    assert_eq!(p("42px"), 42.0);
    assert_eq!(p("  \u{a0}\u{feff}-17"), -17.0);
    assert_eq!(p("+5.9"), 5.0);
    assert_eq!(p("0x1F"), 31.0);
    assert_eq!(p("0Xg"), 0.0);
    assert_eq!(p("-0xa"), -10.0);
    let long = "123456789012345678901234567890";
    assert_eq!(p(long), long.bytes().fold(0.0, |acc: f64, d| acc * 10.0 + f64::from(d - b'0')));
    assert!(p("").is_nan());
    assert!(p("abc").is_nan());
    assert!(p("-").is_nan());
    let r = |s: &str, k: u32| f64::from_bits(js_parse_int_radix(s, k, &fl));
    assert_eq!(r("ff", 16), 255.0);
    assert_eq!(r("0xff", 16), 255.0);
    assert_eq!(r("0xff", 10), 0.0);
    assert_eq!(r("129", 8), 10.0);
    assert!(is_js_ws('\u{2003}'));
    assert!(!is_js_ws('x'));
}

#[test]
fn formats_numbers() {
    let fl = Floats { arith, parse, show, debug };
    let f = |x: f64| format_js_num(x.to_bits(), &fl);
    assert_eq!(f(0.0), "0");
    assert_eq!(f(-0.0), "0");
    assert_eq!(f(-12.0), "-12");
    assert_eq!(f(1.5), "1.5");
    assert_eq!(f(9007199254740992.0), "9007199254740992");
    assert_eq!(f(1e20), "9223372036854775807");
    assert_eq!(f(1e21), "1000000000000000000000");
    assert_eq!(f(f64::NAN), "NaN");
    assert_eq!(f(f64::INFINITY), "Infinity");
    assert_eq!(f(f64::NEG_INFINITY), "-Infinity");
}

#[test]
fn escapes_bytes() {
    let mut out = b"x".to_vec();
    json_escape_into(b"a\"\\\n\r\t\x08\x0c\x01\x1f\xc3\xa9", &mut out);
    assert_eq!(out, b"xa\\\"\\\\\\n\\r\\t\\b\\f\\u0001\\u001f\xc3\xa9");
}
