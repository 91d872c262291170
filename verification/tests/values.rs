use restkv::values::{
    echo_or_empty, list_tenant_keys, read_value, render_listing, value_or_empty, write_value,
};
use restkv::{get_value, list_keys, post_value, stats, write_token, Db};

fn fresh(name: &str) -> Db {
    let now = std::time::SystemTime::now().duration_since(std::time::UNIX_EPOCH).unwrap();
    let path = format!("/tmp/restkv-values/{}-{}", name, now.as_nanos());
    let store = kv::Store::new(kv::Config::new(path).temporary(true)).unwrap();
    Db::open(store).unwrap()
}

fn s(text: &str) -> String {
    text.to_string()
}

#[test]
fn fetched_text_is_the_answer() {
    assert_eq!(value_or_empty(Some(Some(s("world")))), "world");
    assert_eq!(value_or_empty(Some(Some(s("")))), "");
}

#[test]
fn missing_entry_and_failure_read_as_empty() {
    assert_eq!(value_or_empty(Some(None)), "");
    assert_eq!(value_or_empty(None), "");
}

#[test]
fn confirmed_write_echoes_the_key() {
    assert_eq!(echo_or_empty(true, s("hello")), "hello");
    assert_eq!(echo_or_empty(false, s("hello")), "");
}

#[test]
fn failed_scan_lists_nothing() {
    assert_eq!(render_listing(None, "tok"), "");
}

#[test]
fn scan_is_filtered_stripped_and_bracketed() {
    let scan = vec![s("abc-1"), s("tok-a"), s("tok-b-c"), s("tok-tok-d"), s("tokx-e")];
    assert_eq!(render_listing(Some(scan), "tok"), "[a, b-c, tok-d]");
    assert_eq!(render_listing(Some(vec![s("abc-1")]), "tok"), "[]");
    assert_eq!(render_listing(Some(Vec::new()), "tok"), "[]");
}

#[test]
fn round_trip_returns_the_value_exactly() {
    let mut db = fresh("round_trip_returns_the_value_exactly");
    assert!(write_token(&mut db, "aB3kT9zQ"));
    let text = "  two\nlines, ünïcødé 你好 and \u{1F600}\t";
    assert_eq!(post_value(&mut db, s("aB3kT9zQ"), s("k1"), text.as_bytes().to_vec()), "k1");
    assert_eq!(get_value(&db, s("aB3kT9zQ"), s("k1")), text);
}

#[test]
fn round_trip_of_every_valid_key_shape() {
    let mut db = fresh("round_trip_of_every_valid_key_shape");
    assert!(write_token(&mut db, "aB3kT9zQ"));
    let longest = "k".repeat(100);
    for key in ["a", "0", "Zz9", longest.as_str()] {
        let value = format!("value of {}", key);
        assert_eq!(post_value(&mut db, s("aB3kT9zQ"), s(key), value.clone().into_bytes()), key);
        assert_eq!(get_value(&db, s("aB3kT9zQ"), s(key)), value);
    }
}

#[test]
fn empty_value_round_trips_as_empty() {
    let mut db = fresh("empty_value_round_trips_as_empty");
    assert!(write_token(&mut db, "aB3kT9zQ"));
    assert_eq!(post_value(&mut db, s("aB3kT9zQ"), s("k"), Vec::new()), "k");
    assert_eq!(get_value(&db, s("aB3kT9zQ"), s("k")), "");
    assert_eq!(list_keys(&db, s("aB3kT9zQ")), "[k]");
}

#[test]
fn read_before_write_is_empty() {
    let mut db = fresh("read_before_write_is_empty");
    assert!(write_token(&mut db, "aB3kT9zQ"));
    assert_eq!(get_value(&db, s("aB3kT9zQ"), s("hello")), "");
    assert_eq!(post_value(&mut db, s("aB3kT9zQ"), s("other"), b"x".to_vec()), "other");
    assert_eq!(get_value(&db, s("aB3kT9zQ"), s("hello")), "");
}

#[test]
fn last_write_wins() {
    let mut db = fresh("last_write_wins");
    assert!(write_token(&mut db, "aB3kT9zQ"));
    assert_eq!(post_value(&mut db, s("aB3kT9zQ"), s("k"), b"one".to_vec()), "k");
    assert_eq!(post_value(&mut db, s("aB3kT9zQ"), s("k"), b"two".to_vec()), "k");
    assert_eq!(get_value(&db, s("aB3kT9zQ"), s("k")), "two");
    assert_eq!(list_keys(&db, s("aB3kT9zQ")), "[k]");
    assert_eq!(stats(&db), "serving 1 access token, 1 k-v pairs");
}

#[test]
fn unregistered_token_writes_nothing() {
    let mut db = fresh("unregistered_token_writes_nothing");
    assert!(write_token(&mut db, "aB3kT9zQ"));
    assert_eq!(post_value(&mut db, s("unknownT"), s("k"), b"x".to_vec()), "");
    assert_eq!(get_value(&db, s("unknownT"), s("k")), "");
    assert_eq!(get_value(&db, s("aB3kT9zQ"), s("k")), "");
    assert!(write_token(&mut db, "unknownT"));
    assert_eq!(get_value(&db, s("unknownT"), s("k")), "");
    assert_eq!(list_keys(&db, s("unknownT")), "[]");
    assert_eq!(stats(&db), "serving 2 access token, 0 k-v pairs");
}

#[test]
fn unregistered_token_reads_and_lists_nothing() {
    let mut db = fresh("unregistered_token_reads_and_lists_nothing");
    assert!(write_token(&mut db, "aB3kT9zQ"));
    assert_eq!(post_value(&mut db, s("aB3kT9zQ"), s("k"), b"x".to_vec()), "k");
    assert_eq!(get_value(&db, s("aB3kT9z"), s("Q-k")), "");
    assert_eq!(list_keys(&db, s("aB3kT9z")), "");
    assert_eq!(list_keys(&db, s("")), "");
}

#[test]
fn token_that_is_not_known_is_refused_everywhere() {
    let mut db = fresh("token_that_is_not_known_is_refused_everywhere");
    assert!(write_token(&mut db, "aB3kT9zQ"));
    assert_eq!(write_value(&mut db, true, "aB3kT9zQ", s("k"), b"x".to_vec()), "k");
    assert_eq!(write_value(&mut db, false, "aB3kT9zQ", s("k2"), b"y".to_vec()), "");
    assert_eq!(write_value(&mut db, false, "aB3kT9zQ", s("k"), b"y".to_vec()), "");
    assert_eq!(read_value(&db, false, "aB3kT9zQ", "k"), "");
    assert_eq!(read_value(&db, true, "aB3kT9zQ", "k"), "x");
    assert_eq!(list_tenant_keys(&db, false, "aB3kT9zQ"), "");
    assert_eq!(list_tenant_keys(&db, true, "aB3kT9zQ"), "[k]");
    assert_eq!(stats(&db), "serving 1 access token, 1 k-v pairs");
}

#[test]
fn invalid_key_writes_nothing() {
    let mut db = fresh("invalid_key_writes_nothing");
    assert!(write_token(&mut db, "aB3kT9zQ"));
    for key in ["", "!!!", "-", "é", " "] {
        assert_eq!(post_value(&mut db, s("aB3kT9zQ"), s(key), b"x".to_vec()), "");
        assert_eq!(get_value(&db, s("aB3kT9zQ"), s(key)), "");
    }
    assert_eq!(list_keys(&db, s("aB3kT9zQ")), "[]");
    assert_eq!(stats(&db), "serving 1 access token, 0 k-v pairs");
}

#[test]
fn value_that_is_not_text_writes_nothing() {
    let mut db = fresh("value_that_is_not_text_writes_nothing");
    assert!(write_token(&mut db, "aB3kT9zQ"));
    assert_eq!(post_value(&mut db, s("aB3kT9zQ"), s("k"), vec![0xff, 0xfe]), "");
    assert_eq!(post_value(&mut db, s("aB3kT9zQ"), s("k"), vec![0xc3]), "");
    assert_eq!(post_value(&mut db, s("aB3kT9zQ"), s("k"), vec![0xed, 0xa0, 0x80]), "");
    assert_eq!(post_value(&mut db, s("aB3kT9zQ"), s("k"), vec![0xc0, 0x80]), "");
    assert_eq!(get_value(&db, s("aB3kT9zQ"), s("k")), "");
    assert_eq!(stats(&db), "serving 1 access token, 0 k-v pairs");
}

#[test]
fn rejected_write_keeps_the_earlier_value() {
    let mut db = fresh("rejected_write_keeps_the_earlier_value");
    assert!(write_token(&mut db, "aB3kT9zQ"));
    assert_eq!(post_value(&mut db, s("aB3kT9zQ"), s("k"), b"kept".to_vec()), "k");
    assert_eq!(post_value(&mut db, s("aB3kT9zQ"), s("k"), vec![0xff]), "");
    assert_eq!(get_value(&db, s("aB3kT9zQ"), s("k")), "kept");
}

#[test]
fn tenants_do_not_see_each_other() {
    let mut db = fresh("tenants_do_not_see_each_other");
    assert!(write_token(&mut db, "tenantA1"));
    assert!(write_token(&mut db, "tenantB2"));
    assert_eq!(post_value(&mut db, s("tenantA1"), s("shared"), b"of a".to_vec()), "shared");
    assert_eq!(get_value(&db, s("tenantB2"), s("shared")), "");
    assert_eq!(list_keys(&db, s("tenantB2")), "[]");
    assert_eq!(post_value(&mut db, s("tenantB2"), s("shared"), b"of b".to_vec()), "shared");
    assert_eq!(get_value(&db, s("tenantA1"), s("shared")), "of a");
    assert_eq!(get_value(&db, s("tenantB2"), s("shared")), "of b");
    assert_eq!(list_keys(&db, s("tenantA1")), "[shared]");
    assert_eq!(list_keys(&db, s("tenantB2")), "[shared]");
    assert_eq!(stats(&db), "serving 2 access token, 2 k-v pairs");
}

#[test]
fn token_that_begins_another_is_kept_apart() {
    let mut db = fresh("token_that_begins_another_is_kept_apart");
    assert!(write_token(&mut db, "abcdefgh"));
    assert!(write_token(&mut db, "abcdefg"));
    assert_eq!(post_value(&mut db, s("abcdefgh"), s("k"), b"long".to_vec()), "k");
    assert_eq!(get_value(&db, s("abcdefg"), s("k")), "");
    assert_eq!(get_value(&db, s("abcdefg"), s("h-k")), "");
    assert_eq!(list_keys(&db, s("abcdefg")), "[]");
}

#[test]
fn listing_follows_the_order_of_the_stored_keys() {
    let mut db = fresh("listing_follows_the_order_of_the_stored_keys");
    assert!(write_token(&mut db, "aB3kT9zQ"));
    for key in ["pear", "apple", "Zebra", "10", "9", "fig", "apple2"] {
        assert_eq!(post_value(&mut db, s("aB3kT9zQ"), s(key), b"v".to_vec()), key);
    }
    assert_eq!(list_keys(&db, s("aB3kT9zQ")), "[10, 9, Zebra, apple, apple2, fig, pear]");
}

#[test]
fn listing_grows_and_never_shrinks() {
    let mut db = fresh("listing_grows_and_never_shrinks");
    assert!(write_token(&mut db, "aB3kT9zQ"));
    assert_eq!(list_keys(&db, s("aB3kT9zQ")), "[]");
    assert_eq!(post_value(&mut db, s("aB3kT9zQ"), s("b"), b"1".to_vec()), "b");
    assert_eq!(list_keys(&db, s("aB3kT9zQ")), "[b]");
    assert_eq!(post_value(&mut db, s("aB3kT9zQ"), s("a"), b"2".to_vec()), "a");
    assert_eq!(list_keys(&db, s("aB3kT9zQ")), "[a, b]");
    assert_eq!(post_value(&mut db, s("aB3kT9zQ"), s("b"), b"3".to_vec()), "b");
    assert_eq!(post_value(&mut db, s("aB3kT9zQ"), s("!"), b"4".to_vec()), "");
    assert_eq!(list_keys(&db, s("aB3kT9zQ")), "[a, b]");
}

#[test]
fn listing_strips_the_prefix_once() {
    let mut db = fresh("listing_strips_the_prefix_once");
    assert!(write_token(&mut db, "tok"));
    assert_eq!(post_value(&mut db, s("tok"), s("tok-x"), b"v".to_vec()), "tok-x");
    assert_eq!(list_keys(&db, s("tok")), "[tok-x]");
    assert_eq!(get_value(&db, s("tok"), s("tok-x")), "v");
}

#[test]
fn overlapping_tokens_share_stored_keys() {
    let mut db = fresh("overlapping_tokens_share_stored_keys");
    assert!(write_token(&mut db, "a"));
    assert!(write_token(&mut db, "a-b"));
    assert_eq!(post_value(&mut db, s("a-b"), s("c"), b"v".to_vec()), "c");
    assert_eq!(get_value(&db, s("a"), s("b-c")), "v");
    assert_eq!(list_keys(&db, s("a")), "[b-c]");
    assert_eq!(list_keys(&db, s("a-b")), "[c]");
    assert_eq!(stats(&db), "serving 2 access token, 1 k-v pairs");
}
