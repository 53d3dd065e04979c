use clan_hiscores::text::{
    i64_to_string, parse_i64, split_first, split_lines, split_on, starts_with_str, str_eq,
    trim_quotes, trim_spaces, trimmed_username, u64_to_string,
};

#[test]
fn parse_plain_integers() {
    assert_eq!(parse_i64("0"), Some(0));
    assert_eq!(parse_i64("42"), Some(42));
    assert_eq!(parse_i64("-7"), Some(-7));
    assert_eq!(parse_i64("+5"), Some(5));
}

#[test]
fn parse_rejects_malformed() {
    assert_eq!(parse_i64(""), None);
    assert_eq!(parse_i64("-"), None);
    assert_eq!(parse_i64("+"), None);
    assert_eq!(parse_i64("12a"), None);
    assert_eq!(parse_i64("a12"), None);
    assert_eq!(parse_i64("1 2"), None);
}

#[test]
fn parse_handles_i64_range() {
    assert_eq!(parse_i64("9223372036854775807"), Some(i64::MAX));
    assert_eq!(parse_i64("9223372036854775808"), None);
    assert_eq!(parse_i64("-9223372036854775808"), Some(i64::MIN));
    assert_eq!(parse_i64("-9223372036854775809"), None);
    assert_eq!(parse_i64("99999999999999999999999999"), None);
}

#[test]
fn username_normalization() {
    assert_eq!(trimmed_username("Zezima"), "Zezima");
    assert_eq!(trimmed_username("  Zezima  "), "Zezima");
    assert_eq!(trimmed_username("\"Zezima\""), "Zezima");
    assert_eq!(trimmed_username(" \"Ze,zima\" "), "Zezima");
    assert_eq!(trimmed_username("a,b,c"), "abc");
    assert_eq!(trimmed_username("\" spaced name\""), " spaced name");
    assert_eq!(trimmed_username(""), "");
}

#[test]
fn trimming() {
    assert_eq!(trim_spaces("  a b  "), "a b");
    assert_eq!(trim_spaces("\t\n x \r"), "x");
    assert_eq!(trim_spaces("   "), "");
    assert_eq!(trim_quotes("\"\"abc\""), "abc");
    assert_eq!(trim_quotes("\"\""), "");
}

#[test]
fn splitting_fields() {
    let f = split_on("12,34,56", ',');
    assert_eq!(f, vec!["12", "34", "56"]);
    assert_eq!(split_on("", ','), vec![""]);
    assert_eq!(split_on(",a,", ','), vec!["", "a", ""]);
    assert_eq!(split_first("a,b,c", ','), Some(("a".to_string(), "b,c".to_string())));
    assert_eq!(split_first("abc", ','), None);
}

#[test]
fn splitting_lines() {
    assert_eq!(split_lines("a\nb\nc"), vec!["a", "b", "c"]);
    assert_eq!(split_lines("a\nb\n"), vec!["a", "b"]);
    assert_eq!(split_lines("a\r\nb\r\n"), vec!["a", "b"]);
    assert_eq!(split_lines(""), Vec::<String>::new());
    assert_eq!(split_lines("\n"), vec![""]);
}

#[test]
fn decimal_rendering() {
    assert_eq!(u64_to_string(0), "0");
    assert_eq!(u64_to_string(905), "905");
    assert_eq!(i64_to_string(-37), "-37");
    assert_eq!(i64_to_string(i64::MIN), "-9223372036854775808");
    assert_eq!(i64_to_string(i64::MAX), "9223372036854775807");
}

#[test]
fn string_predicates() {
    assert!(str_eq("abc", "abc"));
    assert!(!str_eq("abc", "abd"));
    assert!(!str_eq("abc", "ab"));
    assert!(starts_with_str("abcdef", "abc"));
    assert!(!starts_with_str("ab", "abc"));
    assert!(starts_with_str("anything", ""));
}
