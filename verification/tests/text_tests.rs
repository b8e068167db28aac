use dataingester::text::{parse_usize, split_str, str_eq, str_lt, usize_to_string};

#[test]
fn split_keeps_empty_pieces() {
    let parts = split_str("a,b,,c", ',');
    assert_eq!(parts, vec!["a", "b", "", "c"]);
    assert_eq!(split_str("", ','), vec![""]);
    assert_eq!(split_str(",", ','), vec!["", ""]);
    assert_eq!(split_str("abc", ','), vec!["abc"]);
}

#[test]
fn parse_usize_matches_the_standard_parser() {
    assert_eq!(parse_usize("0"), Some(0));
    assert_eq!(parse_usize("007"), Some(7));
    assert_eq!(parse_usize("+42"), Some(42));
    assert_eq!(parse_usize("18446744073709551615"), Some(usize::MAX));
    assert_eq!(parse_usize("18446744073709551616"), None);
    assert_eq!(parse_usize(""), None);
    assert_eq!(parse_usize("+"), None);
    assert_eq!(parse_usize("12a"), None);
    assert_eq!(parse_usize("-3"), None);
}

#[test]
fn decimal_rendering() {
    assert_eq!(usize_to_string(0), "0");
    assert_eq!(usize_to_string(7), "7");
    assert_eq!(usize_to_string(120), "120");
    assert_eq!(usize_to_string(usize::MAX), usize::MAX.to_string());
}

#[test]
fn lexicographic_comparison() {
    assert!(str_lt("2020", "2021"));
    assert!(!str_lt("2021", "2020"));
    assert!(!str_lt("2021", "2021"));
    assert!(str_lt("abc", "abcd"));
    assert!(str_lt("", "a"));
    assert!(str_eq("abc", "abc"));
    assert!(!str_eq("abc", "abd"));
}
