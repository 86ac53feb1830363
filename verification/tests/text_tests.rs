use penumbra_indexer::text::{i64_to_string, parse_u64, str_contains, u64_to_string};

#[test]
fn decimal_rendering_is_exact() {
    assert_eq!(u64_to_string(0), "0");
    assert_eq!(u64_to_string(7), "7");
    assert_eq!(u64_to_string(10), "10");
    assert_eq!(u64_to_string(2611800), "2611800");
    assert_eq!(u64_to_string(u64::MAX), "18446744073709551615");
}

#[test]
fn signed_rendering_adds_the_sign() {
    assert_eq!(i64_to_string(0), "0");
    assert_eq!(i64_to_string(42), "42");
    assert_eq!(i64_to_string(-1), "-1");
    assert_eq!(i64_to_string(i64::MIN), "-9223372036854775808");
    assert_eq!(i64_to_string(i64::MAX), "9223372036854775807");
}

#[test]
fn parsing_inverts_rendering() {
    assert_eq!(parse_u64("0"), Some(0));
    assert_eq!(parse_u64("2611800"), Some(2611800));
    assert_eq!(parse_u64(&u64_to_string(u64::MAX)), Some(u64::MAX));
    assert_eq!(parse_u64("007"), Some(7));
    assert_eq!(parse_u64(""), None);
    assert_eq!(parse_u64("12 "), None);
    assert_eq!(parse_u64("18446744073709551616"), None);
    assert_eq!(parse_u64("99999999999999999999999"), None);
}

#[test]
fn substring_search_finds_runs() {
    assert!(str_contains("a spend happened", "spend"));
    assert!(str_contains("spend", "spend"));
    assert!(str_contains("anything", ""));
    assert!(!str_contains("spen d", "spend"));
    assert!(!str_contains("spe", "spend"));
    assert!(str_contains("xxspendyy", "spend"));
}
