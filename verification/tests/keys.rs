use restkv::keys::{composite_key, marker_key, strip_tenant};
use restkv::validate_key;

#[test]
fn marker_is_prefix_and_token() {
    assert_eq!(marker_key("aB3kT9zQ"), "token-aB3kT9zQ");
    assert_eq!(marker_key(""), "token-");
}

#[test]
fn composite_is_token_dash_key() {
    assert_eq!(composite_key("aB3kT9zQ", "hello"), "aB3kT9zQ-hello");
    assert_eq!(composite_key("t", ""), "t-");
    assert_eq!(composite_key("", "k"), "-k");
}

#[test]
fn key_of_letters_and_digits_is_valid() {
    assert!(validate_key("hello"));
    assert!(validate_key("a"));
    assert!(validate_key("Z"));
    assert!(validate_key("0"));
    assert!(validate_key("9"));
    assert!(validate_key("abcXYZ019"));
}

#[test]
fn key_of_one_hundred_characters_is_valid() {
    assert!(validate_key(&"k".repeat(100)));
}

#[test]
fn empty_key_is_invalid() {
    assert!(!validate_key(""));
}

#[test]
fn key_without_letter_or_digit_is_invalid() {
    assert!(!validate_key("!!!"));
    assert!(!validate_key("-"));
    assert!(!validate_key("_ _"));
    assert!(!validate_key("/[]{}`@:"));
}

#[test]
fn key_beyond_ascii_is_invalid() {
    assert!(!validate_key("é"));
    assert!(!validate_key("٣"));
    assert!(!validate_key("你好"));
}

#[test]
fn key_pattern_is_searched_not_anchored() {
    assert!(validate_key("a-b"));
    assert!(validate_key("!a!"));
    assert!(validate_key("  x"));
    assert!(validate_key(&"k".repeat(101)));
    assert!(validate_key("é1"));
}

#[test]
fn strip_keeps_own_keys_in_order() {
    let stored = vec![
        "aaa-x".to_string(),
        "tok-a".to_string(),
        "tok-b".to_string(),
        "tokk-c".to_string(),
        "zzz-y".to_string(),
    ];
    assert_eq!(strip_tenant(&stored, "tok"), vec!["a".to_string(), "b".to_string()]);
    assert_eq!(strip_tenant(&stored, "aaa"), vec!["x".to_string()]);
    assert_eq!(strip_tenant(&stored, "none"), Vec::<String>::new());
}

#[test]
fn strip_removes_the_prefix_once() {
    let stored = vec!["ab-ab-x".to_string(), "ab-ab-".to_string(), "ab-".to_string()];
    assert_eq!(
        strip_tenant(&stored, "ab"),
        vec!["ab-x".to_string(), "ab-".to_string(), "".to_string()]
    );
}

#[test]
fn strip_needs_the_dash() {
    let stored = vec!["tok".to_string(), "tokx".to_string(), "to-k".to_string()];
    assert_eq!(strip_tenant(&stored, "tok"), Vec::<String>::new());
}

#[test]
fn strip_works_beyond_ascii() {
    let stored = vec!["é-ß".to_string(), "é-".to_string(), "e-x".to_string()];
    assert_eq!(strip_tenant(&stored, "é"), vec!["ß".to_string(), "".to_string()]);
}
