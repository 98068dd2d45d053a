use vda_sim::map::name_prefix::{strip_prefix_and_parse_int, trailing_digits_at_end};

#[test]
fn matches_java_point_examples() {
    assert_eq!(strip_prefix_and_parse_int("Point_3", "Point_"), 3);
    assert_eq!(strip_prefix_and_parse_int("3", "Point_"), 3);
}

#[test]
fn matches_java_path_examples() {
    assert_eq!(strip_prefix_and_parse_int("Path_1", "Path_"), 1);
    assert_eq!(strip_prefix_and_parse_int("12", "Path_"), 12);
}

#[test]
fn trailing_digits_fallback_like_java() {
    assert_eq!(strip_prefix_and_parse_int("Point_99", ""), 99);
}

#[test]
fn blank_text_gives_zero() {
    assert_eq!(strip_prefix_and_parse_int("", "Point_"), 0);
    assert_eq!(strip_prefix_and_parse_int(" \t\n ", "Point_"), 0);
}

#[test]
fn surrounding_whitespace_is_trimmed() {
    assert_eq!(strip_prefix_and_parse_int("  Point_7 \n", "Point_"), 7);
    assert_eq!(strip_prefix_and_parse_int("\u{3000}42\u{2003}", "Point_"), 42);
}

#[test]
fn signs_are_parsed_like_i32() {
    assert_eq!(strip_prefix_and_parse_int("-5", "Point_"), -5);
    assert_eq!(strip_prefix_and_parse_int("+5", "Point_"), 5);
    assert_eq!(strip_prefix_and_parse_int("Point_-5", "Point_"), -5);
    assert_eq!(strip_prefix_and_parse_int("-2147483648", ""), i32::MIN);
    assert_eq!(strip_prefix_and_parse_int("2147483647", ""), i32::MAX);
}

#[test]
fn lone_sign_falls_back_to_zero() {
    assert_eq!(strip_prefix_and_parse_int("-", ""), 0);
    assert_eq!(strip_prefix_and_parse_int("+", ""), 0);
}

#[test]
fn overflow_gives_zero() {
    assert_eq!(strip_prefix_and_parse_int("2147483648", ""), 0);
    assert_eq!(strip_prefix_and_parse_int("Point_99999999999", "Point_"), 0);
}

#[test]
fn negative_overflow_falls_back_to_trailing_digits() {
    // "-2147483649" does not fit an i32; its trailing digits do not either.
    assert_eq!(strip_prefix_and_parse_int("-2147483649", ""), 0);
    // "-99999999999" overflows, but a short trailing run after a letter parses.
    assert_eq!(strip_prefix_and_parse_int("x-12", ""), 12);
}

#[test]
fn other_prefix_uses_trailing_digits() {
    assert_eq!(strip_prefix_and_parse_int("Station_17", "Point_"), 17);
    assert_eq!(strip_prefix_and_parse_int("Point_3a", "Point_"), 0);
    assert_eq!(strip_prefix_and_parse_int("abc", "Point_"), 0);
}

#[test]
fn prefix_alone_gives_zero() {
    assert_eq!(strip_prefix_and_parse_int("Point_", "Point_"), 0);
}

#[test]
fn non_ascii_digits_are_not_digits() {
    assert_eq!(strip_prefix_and_parse_int("Point_\u{0663}", "Point_"), 0);
    assert_eq!(strip_prefix_and_parse_int("Pünkt_8", "Point_"), 8);
}

#[test]
fn trailing_digits_examples() {
    assert_eq!(trailing_digits_at_end("Point_99"), Some("99"));
    assert_eq!(trailing_digits_at_end("Point_99  "), Some("99"));
    assert_eq!(trailing_digits_at_end("Point_"), None);
    assert_eq!(trailing_digits_at_end(""), None);
    assert_eq!(trailing_digits_at_end("123"), Some("123"));
    assert_eq!(trailing_digits_at_end("ä7"), Some("7"));
}

#[test]
fn canonical_names_read_back_their_id() {
    for n in [1, 9, 10, 123, 2147483647] {
        let name = format!("Point_{}", n);
        assert_eq!(strip_prefix_and_parse_int(&name, "Point_"), n);
        assert_eq!(strip_prefix_and_parse_int(&n.to_string(), "Point_"), n);
        assert_eq!(strip_prefix_and_parse_int(&format!(" P_{}", n), " P_"), n);
    }
}

#[test]
fn any_i32_after_a_prefix_reads_back() {
    for n in [i32::MIN, -2147483647, -5, -1, 0, 1, 7, 10, 2147483647] {
        for prefix in ["", "P", "Point_", "P ", "x-"] {
            let name = format!("{}{}", prefix, n);
            assert_eq!(strip_prefix_and_parse_int(&name, prefix), n, "{:?}", name);
        }
    }
}

#[test]
fn leading_whitespace_prefix_loses_the_sign() {
    // " P" starts with whitespace: " P-5" is trimmed to "P-5", which no longer starts with the
    // prefix, so only the trailing digits are read.
    assert_eq!(strip_prefix_and_parse_int(" P-5", " P"), 5);
}
