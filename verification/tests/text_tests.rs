use regmsg::text::{
    concat3, dec_string, int_error_message, int_string, parse_i32, parse_u32, parse_usize,
    replace_first_str, split_whitespace, str_eq, str_lt, trim, IntErrorKind,
};

#[test]
fn trimming_and_splitting() {
    assert_eq!(trim("  a b \t\n"), "a b");
    assert_eq!(trim(""), "");
    assert_eq!(trim(" \t "), "");
    assert_eq!(
        split_whitespace("  setMode  1920x1080\t--screen HDMI-A-1 "),
        vec!["setMode", "1920x1080", "--screen", "HDMI-A-1"]
    );
    assert!(split_whitespace("   ").is_empty());
}

#[test]
fn integers_parse_as_std_parses_them() {
    assert_eq!(parse_u32("4294967295"), Ok(4294967295));
    assert!(matches!(parse_u32("4294967296"), Err(IntErrorKind::PosOverflow)));
    assert!(matches!(parse_u32(""), Err(IntErrorKind::Empty)));
    assert!(matches!(parse_u32("-1"), Err(IntErrorKind::InvalidDigit)));
    assert_eq!(parse_u32("+7"), Ok(7));
    assert_eq!(parse_usize("12"), Ok(12));
    assert_eq!(parse_i32("-2147483648"), Ok(-2147483648));
    assert!(matches!(parse_i32("-2147483649"), Err(IntErrorKind::NegOverflow)));
    assert!(matches!(parse_i32("-"), Err(IntErrorKind::InvalidDigit)));
    for (text, kind) in [
        ("", IntErrorKind::Empty),
        ("x", IntErrorKind::InvalidDigit),
        ("99999999999", IntErrorKind::PosOverflow),
        ("-99999999999", IntErrorKind::NegOverflow),
    ] {
        let expected = text.parse::<i32>().unwrap_err().to_string();
        assert_eq!(int_error_message(kind), expected);
    }
}

#[test]
fn numbers_print_in_decimal() {
    assert_eq!(dec_string(0), "0");
    assert_eq!(dec_string(18446744073709551615), "18446744073709551615");
    assert_eq!(int_string(-42), "-42");
    assert_eq!(int_string(i64::MIN), "-9223372036854775808");
}

#[test]
fn string_comparisons() {
    assert!(str_eq("abc", "abc"));
    assert!(!str_eq("abc", "abd"));
    assert!(str_lt("abc", "abd"));
    assert!(str_lt("ab", "abc"));
    assert!(!str_lt("abc", "abc"));
    assert!(!str_lt("b", "abc"));
    assert_eq!(concat3("a", "-", "b"), "a-b");
}

#[test]
fn replacing_the_first_occurrence() {
    assert_eq!(replace_first_str("a--b--c", "--", "+"), "a+b--c");
    assert_eq!(replace_first_str("abc", "x", "y"), "abc");
}
