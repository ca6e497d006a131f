use rust_http_web_lib::text::{
    compare_str, find_char, i32_to_decimal, str_ends_with_slash, str_starts_with_slash,
    trim_str, u128_to_decimal, KeyOrder,
};

#[test]
fn decimal_formatting() {
    assert_eq!(u128_to_decimal(0), "0");
    assert_eq!(u128_to_decimal(10), "10");
    assert_eq!(u128_to_decimal(u128::MAX), u128::MAX.to_string());
    assert_eq!(i32_to_decimal(-45), "-45");
    assert_eq!(i32_to_decimal(i32::MIN), "-2147483648");
    assert_eq!(i32_to_decimal(i32::MAX), "2147483647");
}

#[test]
fn trimming_matches_str_trim() {
    for s in ["  a b  ", "\u{3000}x\u{a0}", "", "   ", "\t\n y \r"] {
        assert_eq!(trim_str(s), s.trim());
    }
}

#[test]
fn comparison_matches_string_order() {
    let words = ["", "a", "ab", "b", "Z", "é", "aa"];
    for a in words {
        for b in words {
            let expected = match a.cmp(b) {
                std::cmp::Ordering::Less => KeyOrder::Less,
                std::cmp::Ordering::Equal => KeyOrder::Equal,
                std::cmp::Ordering::Greater => KeyOrder::Greater,
            };
            assert_eq!(compare_str(a, b), expected);
        }
    }
}

#[test]
fn slashes_and_search() {
    assert!(str_ends_with_slash("/a/"));
    assert!(!str_ends_with_slash(""));
    assert!(str_starts_with_slash("/a"));
    assert!(!str_starts_with_slash("a/"));
    assert_eq!(find_char("ab=c=d", '='), Some(2));
    assert_eq!(find_char("abc", '='), None);
}
