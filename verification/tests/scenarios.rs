use restkv::{get_value, list_keys, post_value, stats, token_exist, write_token, Db};

fn fresh(name: &str) -> Db {
    let now = std::time::SystemTime::now().duration_since(std::time::UNIX_EPOCH).unwrap();
    let path = format!("/tmp/restkv-scenarios/{}-{}", name, now.as_nanos());
    let store = kv::Store::new(kv::Config::new(path).temporary(true)).unwrap();
    Db::open(store).unwrap()
}

#[test]
fn full_session_of_one_tenant() {
    let mut db = fresh("full_session_of_one_tenant");
    assert!(write_token(&mut db, "aB3kT9zQ"));
    assert!(token_exist(&db, "aB3kT9zQ"));
    assert_eq!(
        post_value(&mut db, "aB3kT9zQ".to_string(), "hello".to_string(), b"world".to_vec()),
        "hello"
    );
    assert_eq!(get_value(&db, "aB3kT9zQ".to_string(), "hello".to_string()), "world");
    assert_eq!(get_value(&db, "other-token".to_string(), "hello".to_string()), "");
    assert_eq!(list_keys(&db, "aB3kT9zQ".to_string()), "[hello]");
    assert_eq!(stats(&db), "serving 1 access token, 1 k-v pairs");
}

#[test]
fn write_with_unknown_token_is_rejected() {
    let mut db = fresh("write_with_unknown_token_is_rejected");
    assert_eq!(
        post_value(&mut db, "unknownTok".to_string(), "anykey".to_string(), b"x".to_vec()),
        ""
    );
    assert_eq!(stats(&db), "serving 0 access token, 0 k-v pairs");
}

#[test]
fn write_with_bad_key_is_rejected() {
    let mut db = fresh("write_with_bad_key_is_rejected");
    assert!(write_token(&mut db, "aB3kT9zQ"));
    assert_eq!(post_value(&mut db, "aB3kT9zQ".to_string(), "!!!".to_string(), b"x".to_vec()), "");
    assert_eq!(get_value(&db, "aB3kT9zQ".to_string(), "!!!".to_string()), "");
    assert_eq!(list_keys(&db, "aB3kT9zQ".to_string()), "[]");
    assert_eq!(stats(&db), "serving 1 access token, 0 k-v pairs");
}
