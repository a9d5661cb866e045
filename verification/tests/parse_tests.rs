use telemetry_log::parse::{check_float_text, parse_bool, parse_i64, parse_u8, str_eq, str_eq_ci};

#[test]
fn u8_parsing_matches_std() {
    for s in [
        "0", "1", "42", "255", "256", "1000", "+10", "007", "000000000000255", "-1", "", "+",
        "abc", "2 ", " 2", "2.0",
    ] {
        assert_eq!(parse_u8(s), s.parse::<u8>().ok(), "input {:?}", s);
    }
}

#[test]
fn i64_parsing_matches_std() {
    for s in [
        "0",
        "123",
        "-123",
        "+5",
        "9223372036854775807",
        "-9223372036854775808",
        "9223372036854775808",
        "-9223372036854775809",
        "18446744073709551616",
        "--5",
        "+-5",
        "",
        "+",
        "-",
        "12a",
        "0007",
    ] {
        assert_eq!(parse_i64(s), s.parse::<i64>().ok(), "input {:?}", s);
    }
}

#[test]
fn bool_parsing_matches_std() {
    for s in ["true", "false", "True", "FALSE", "1", "0", ""] {
        assert_eq!(parse_bool(s), s.parse::<bool>().ok(), "input {:?}", s);
    }
}

#[test]
fn float_grammar_matches_std() {
    for s in [
        "1", "1.5", ".5", "5.", "0", "-0", "+1.5", "-2.25", "1e5", "1E5", "1e+5", "1e-5", "1.e5",
        ".5e3", "2.5E10", "007.250", "inf", "-inf", "+inf", "infinity", "InFiNiTy", "nan", "NaN",
        "-NAN", "", ".", "+", "-", "e5", "1e", "1e+", "1.2.3", "1e2e3", "--1", "1..2", "in",
        "infin", "nans", "0x1p3", "1_000", " 1", "1 ", "5.0W",
    ] {
        assert_eq!(
            check_float_text(s),
            s.parse::<f32>().is_ok(),
            "input {:?}",
            s
        );
    }
}

#[test]
fn exact_equality_is_case_sensitive() {
    assert!(str_eq("DEVICE", "DEVICE"));
    assert!(!str_eq("device", "DEVICE"));
    assert!(!str_eq("DEVICE", "DEVICES"));
    assert!(str_eq("", ""));
}

#[test]
fn case_insensitive_equality_folds_ascii_only() {
    assert!(str_eq_ci("On", "oN"));
    assert!(str_eq_ci("kPa", "KPA"));
    assert!(!str_eq_ci("On", "Off"));
    // the fold is ASCII-only: a non-ASCII letter must match exactly
    assert!(!str_eq_ci("é", "É"));
    assert!(str_eq_ci("é", "é"));
}
