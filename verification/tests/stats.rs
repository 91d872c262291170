use restkv::stats::{stats_line, stats_reply};
use restkv::{post_value, stats, write_token, Db};

fn fresh(name: &str) -> Db {
    let now = std::time::SystemTime::now().duration_since(std::time::UNIX_EPOCH).unwrap();
    let path = format!("/tmp/restkv-stats/{}-{}", name, now.as_nanos());
    let store = kv::Store::new(kv::Config::new(path).temporary(true)).unwrap();
    Db::open(store).unwrap()
}

#[test]
fn report_for_given_counts() {
    assert_eq!(stats_line(0, 0), "serving 0 access token, 0 k-v pairs");
    assert_eq!(stats_line(1, 1), "serving 1 access token, 1 k-v pairs");
    assert_eq!(stats_line(12, 3456), "serving 12 access token, 3456 k-v pairs");
}

#[test]
fn failed_scan_counts_as_zero() {
    let three = vec!["a".to_string(), "b".to_string(), "c".to_string()];
    let one = vec!["x".to_string()];
    assert_eq!(stats_reply(None, None), "serving 0 access token, 0 k-v pairs");
    assert_eq!(stats_reply(Some(three.clone()), None), "serving 3 access token, 0 k-v pairs");
    assert_eq!(stats_reply(None, Some(one.clone())), "serving 0 access token, 1 k-v pairs");
    assert_eq!(stats_reply(Some(three), Some(one)), "serving 3 access token, 1 k-v pairs");
}

#[test]
fn empty_store_counts_zero() {
    let db = fresh("empty_store_counts_zero");
    assert_eq!(stats(&db), "serving 0 access token, 0 k-v pairs");
}

#[test]
fn counts_follow_tokens_and_pairs() {
    let mut db = fresh("counts_follow_tokens_and_pairs");
    let mut t: usize = 0;
    while t < 12 {
        let token = format!("tenant{:02}", t);
        assert!(write_token(&mut db, &token));
        let mut k: usize = 0;
        while k < t {
            let key = format!("key{}", k);
            assert_eq!(post_value(&mut db, token.clone(), key.clone(), b"v".to_vec()), key);
            k += 1;
        }
        t += 1;
    }
    assert_eq!(stats(&db), "serving 12 access token, 66 k-v pairs");
}

#[test]
fn overwriting_does_not_count() {
    let mut db = fresh("overwriting_does_not_count");
    assert!(write_token(&mut db, "aB3kT9zQ"));
    let mut n: usize = 0;
    while n < 10 {
        assert_eq!(
            post_value(&mut db, "aB3kT9zQ".to_string(), "k".to_string(), n.to_string().into_bytes()),
            "k"
        );
        n += 1;
    }
    assert_eq!(stats(&db), "serving 1 access token, 1 k-v pairs");
}

#[test]
fn rejected_writes_do_not_count() {
    let mut db = fresh("rejected_writes_do_not_count");
    assert!(write_token(&mut db, "aB3kT9zQ"));
    assert_eq!(post_value(&mut db, "nobody00".to_string(), "k".to_string(), b"v".to_vec()), "");
    assert_eq!(post_value(&mut db, "aB3kT9zQ".to_string(), "?".to_string(), b"v".to_vec()), "");
    assert_eq!(post_value(&mut db, "aB3kT9zQ".to_string(), "k".to_string(), vec![0x80]), "");
    assert_eq!(stats(&db), "serving 1 access token, 0 k-v pairs");
}
