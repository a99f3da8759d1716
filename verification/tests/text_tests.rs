use mycel::num::{parse_u64_str, u64_to_string};
use mycel::order::{sort_dedup, sorted_difference, sorted_union, str_lt};
use mycel::text::{join_strings, split_once_str, strip_prefix, trim_str};

fn s(v: &[&str]) -> Vec<String> {
    v.iter().map(|x| x.to_string()).collect()
}

#[test]
fn numbers_parse_like_str_parse() {
    assert_eq!(parse_u64_str("42"), Some(42));
    assert_eq!(parse_u64_str("+7"), Some(7));
    assert_eq!(parse_u64_str("18446744073709551615"), Some(u64::MAX));
    assert_eq!(parse_u64_str("18446744073709551616"), None);
    assert_eq!(parse_u64_str(""), None);
    assert_eq!(parse_u64_str("+"), None);
    assert_eq!(parse_u64_str("1 2"), None);
    assert_eq!(parse_u64_str("-1"), None);
}

#[test]
fn numbers_print_and_read_back() {
    for n in [0u64, 9, 10, 1234567890, u64::MAX] {
        assert_eq!(u64_to_string(n), n.to_string());
        assert_eq!(parse_u64_str(&u64_to_string(n)), Some(n));
    }
}

#[test]
fn string_order_and_sets() {
    assert!(str_lt("abc", "abd"));
    assert!(str_lt("ab", "abc"));
    assert!(!str_lt("b", "abc"));
    assert_eq!(sort_dedup(s(&["b", "a", "b", "c"])), vec!["a", "b", "c"]);
    assert_eq!(sorted_difference(&s(&["c", "a", "b"]), &s(&["b"])), vec!["a", "c"]);
    assert_eq!(sorted_union(&s(&["c", "a"]), &s(&["b", "a"])), vec!["a", "b", "c"]);
}

#[test]
fn string_helpers() {
    assert_eq!(trim_str("\t hi \n"), "hi");
    assert_eq!(strip_prefix("github:a/b", "github:"), Some("a/b".to_string()));
    assert_eq!(strip_prefix("gitlab:a/b", "github:"), None);
    assert_eq!(split_once_str("dbus:org.x:y", ':'), Some(("dbus".to_string(), "org.x:y".to_string())));
    assert_eq!(join_strings(&s(&["a", "b", "c"]), ", "), "a, b, c");
}
