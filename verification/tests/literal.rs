use lib::literal::{is_float_literal, parses_as_i32};

const SAMPLES: [&str; 44] = [
    "1", "-1", "+1", "1.", ".5", ".", "", "e5", "1e5", "1E+5", "1e-3", "1e-", "1e", "inf", "INF",
    "-Infinity", "infinity", "nan", "NaN", "-nan", "infinit", "inff", "1.2.3", "12a", " 1", "1 ",
    "1_000", "0x10", "+.e1", "1.e5", "\"1\"", "true", "in", "+", "-", "1e+", "+-1", "00.00",
    "99999999999999999999999999999999999999999999", "1e400", "\u{661}", "1.5E10", ".e1", "--1",
];

#[test]
fn float_literals_are_what_f32_parsing_accepts() {
    for s in SAMPLES {
        assert_eq!(is_float_literal(s), s.parse::<f32>().is_ok(), "{:?}", s);
    }
}

#[test]
fn float_literal_examples() {
    assert!(is_float_literal("3.25"));
    assert!(is_float_literal("12"));
    assert!(is_float_literal("-inf"));
    assert!(!is_float_literal("abc"));
    assert!(!is_float_literal("1e"));
}

#[test]
fn i32_literals_are_what_i32_parsing_accepts() {
    for s in SAMPLES.iter().chain(["2147483647", "2147483648", "-2147483648", "-2147483649"].iter()) {
        assert_eq!(parses_as_i32(s), s.parse::<i32>().is_ok(), "{:?}", s);
    }
}

#[test]
fn every_i32_literal_is_a_float_literal() {
    for s in ["0", "-5", "+17", "2147483647", "-2147483648"] {
        assert!(parses_as_i32(s));
        assert!(is_float_literal(s));
    }
}

#[test]
fn whitespace_is_unicode_white_space() {
    for u in 0u32..=0x10ffff {
        if let Some(c) = char::from_u32(u) {
            assert_eq!(lib::text::is_whitespace_exec(c), c.is_whitespace(), "{:x}", u);
        }
    }
}
