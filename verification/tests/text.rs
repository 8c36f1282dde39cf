use pifbip::text::{decimal_string, str_equal, text_lt};

#[test]
fn decimal_rendering() {
    assert_eq!(decimal_string(0), "0");
    assert_eq!(decimal_string(7), "7");
    assert_eq!(decimal_string(10), "10");
    assert_eq!(decimal_string(u64::MAX), u64::MAX.to_string());
}

#[test]
fn text_order_and_equality() {
    assert!(text_lt("a", "b"));
    assert!(text_lt("a", "ab"));
    assert!(!text_lt("ab", "a"));
    assert!(!text_lt("a", "a"));
    assert!(text_lt("Z", "a"));
    assert!(text_lt("z", "é"));
    assert!(str_equal("été", "été"));
    assert!(!str_equal("été", "ete"));
    for (a, b) in [("x", "xy"), ("é", "e"), ("", "a"), ("abc", "abd")] {
        assert_eq!(text_lt(a, b), a < b, "{} {}", a, b);
        assert_eq!(text_lt(b, a), b < a, "{} {}", b, a);
    }
}
