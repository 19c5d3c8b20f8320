use rust_rapport::demo::{
    byte_count, echo_owned, greet, letters_around_a, looks_empty, name_or_default, overly_cloney, truncate,
};

#[test]
fn greet_says_hello() {
    assert_eq!(greet("Ferris"), "Hello, Ferris");
    assert_eq!(greet(""), "Hello, ");
}

#[test]
fn name_or_default_falls_back_to_anonymous() {
    assert_eq!(name_or_default(Some("bob".to_string())), "bob");
    assert_eq!(name_or_default(None), "anonymous");
}

#[test]
fn letters_around_a_splits_like_str_split() {
    let cases = ["banana", "", "a", "aa", "xyz", "été à a", "ab"];
    for case in cases {
        let expected: Vec<&str> = case.split('a').collect();
        assert_eq!(letters_around_a(case), expected, "input {case:?}");
    }
    assert_eq!(letters_around_a("banana"), vec!["b", "n", "n", ""]);
}

#[test]
fn overly_cloney_returns_the_same_text() {
    assert_eq!(overly_cloney("abc".to_string()), "abc");
}

#[test]
fn truncate_keeps_low_bits() {
    assert_eq!(truncate(5), 5);
    assert_eq!(truncate(-7), -7);
    assert_eq!(truncate(i64::from(i32::MAX) + 1), i32::MIN);
    assert_eq!(truncate(0x1_0000_0003), 3);
}

#[test]
fn echo_owned_copies() {
    assert_eq!(echo_owned("héllo"), "héllo");
}

#[test]
fn looks_empty_and_byte_count() {
    assert!(looks_empty(""));
    assert!(!looks_empty(" "));
    assert_eq!(byte_count("héllo"), 6);
    assert_eq!(byte_count(""), 0);
}
