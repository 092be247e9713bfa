use sbs1::{parse_bool, parse_float, parse_int, parse_string};

#[test]
fn bool_coercion_reads_integers() {
    assert_eq!(parse_bool(Some("1")), Some(true));
    assert_eq!(parse_bool(Some("5")), Some(true));
    assert_eq!(parse_bool(Some("-1")), Some(true));
    assert_eq!(parse_bool(Some("0")), Some(false));
    assert_eq!(parse_bool(Some("-0")), Some(false));
    assert_eq!(parse_bool(Some("true")), None);
    assert_eq!(parse_bool(Some("false")), None);
    assert_eq!(parse_bool(Some("")), None);
    assert_eq!(parse_bool(None), None);
}

#[test]
fn int_coercion_parses_signed_decimals() {
    assert_eq!(parse_int(Some("42")), Some(42));
    assert_eq!(parse_int(Some("-7")), Some(-7));
    assert_eq!(parse_int(Some("+8")), Some(8));
    assert_eq!(parse_int(Some("007")), Some(7));
    assert_eq!(parse_int(Some("0")), Some(0));
    assert_eq!(parse_int(Some("")), None);
    assert_eq!(parse_int(Some("+")), None);
    assert_eq!(parse_int(Some("-")), None);
    assert_eq!(parse_int(Some("12a")), None);
    assert_eq!(parse_int(Some("1.5")), None);
    assert_eq!(parse_int(Some(" 1")), None);
    assert_eq!(parse_int(None), None);
}

#[test]
fn int_coercion_respects_the_i32_range() {
    assert_eq!(parse_int(Some("2147483647")), Some(i32::MAX));
    assert_eq!(parse_int(Some("2147483648")), None);
    assert_eq!(parse_int(Some("-2147483648")), Some(i32::MIN));
    assert_eq!(parse_int(Some("-2147483649")), None);
    assert_eq!(parse_int(Some("00000000000000002147483647")), Some(i32::MAX));
    assert_eq!(parse_int(Some("99999999999999999999999999")), None);
}

#[test]
fn int_coercion_agrees_with_std() {
    let samples = [
        "42", "-7", "+8", "007", "", "+", "-", "12a", "1.5", " 1", "2147483647", "2147483648",
        "-2147483648", "-2147483649", "0", "-0", "00000000000000002147483647",
    ];
    for s in samples {
        assert_eq!(parse_int(Some(s)), s.parse::<i32>().ok(), "input {:?}", s);
    }
}

#[test]
fn float_coercion_keeps_exactly_the_float_texts() {
    assert_eq!(parse_float(Some("450.5")).as_deref(), Some("450.5"));
    assert_eq!(parse_float(Some("-74.0060")).as_deref(), Some("-74.0060"));
    assert_eq!(parse_float(Some("1e5")).as_deref(), Some("1e5"));
    assert_eq!(parse_float(Some("+.5")).as_deref(), Some("+.5"));
    assert_eq!(parse_float(Some("5.")).as_deref(), Some("5."));
    assert_eq!(parse_float(Some("inf")).as_deref(), Some("inf"));
    assert_eq!(parse_float(Some("-Infinity")).as_deref(), Some("-Infinity"));
    assert_eq!(parse_float(Some("NaN")).as_deref(), Some("NaN"));
    assert_eq!(parse_float(Some("")), None);
    assert_eq!(parse_float(Some(".")), None);
    assert_eq!(parse_float(Some("4a")), None);
    assert_eq!(parse_float(Some("1e")), None);
    assert_eq!(parse_float(Some("1e+")), None);
    assert_eq!(parse_float(Some("--1")), None);
    assert_eq!(parse_float(Some(" 1.0")), None);
    assert_eq!(parse_float(None), None);
}

#[test]
fn float_coercion_agrees_with_std() {
    let samples = [
        "450.5", "-74.0060", "1e5", "1E-5", "+.5", "5.", ".5", "inf", "Inf", "INFINITY",
        "-Infinity", "NaN", "nan", "-nan", "", ".", "4a", "1e", "1e+", "--1", " 1.0", "1.0 ",
        "0x1p3", "1_000", "1,5", "3.14159", "-0.0", "1.e5", "+1e+09",
    ];
    for s in samples {
        assert_eq!(
            parse_float(Some(s)).is_some(),
            s.parse::<f32>().is_ok(),
            "input {:?}",
            s
        );
    }
}

#[test]
fn string_coercion_is_verbatim() {
    assert_eq!(parse_string(Some("A1B2C3")).as_deref(), Some("A1B2C3"));
    assert_eq!(parse_string(Some("")).as_deref(), Some(""));
    assert_eq!(parse_string(Some("  x  ")).as_deref(), Some("  x  "));
    assert_eq!(parse_string(None), None);
}
