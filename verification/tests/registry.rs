use restkv::registry::TOKEN_LEN;
use restkv::{lookup_token, presume_present, random_token, stats, token_exist, write_token, Db};

fn fresh(name: &str) -> Db {
    let now = std::time::SystemTime::now().duration_since(std::time::UNIX_EPOCH).unwrap();
    let path = format!("/tmp/restkv-registry/{}-{}", name, now.as_nanos());
    let store = kv::Store::new(kv::Config::new(path).temporary(true)).unwrap();
    Db::open(store).unwrap()
}

#[test]
fn failed_lookup_counts_as_present() {
    assert!(presume_present(None));
}

#[test]
fn answered_lookup_is_taken_as_it_is() {
    assert!(presume_present(Some(true)));
    assert!(!presume_present(Some(false)));
}

#[test]
fn unknown_token_does_not_exist() {
    let db = fresh("unknown_token_does_not_exist");
    assert_eq!(lookup_token(&db, "aB3kT9zQ"), Some(false));
    assert!(!token_exist(&db, "aB3kT9zQ"));
    assert!(!token_exist(&db, ""));
}

#[test]
fn registered_token_exists() {
    let mut db = fresh("registered_token_exists");
    assert!(write_token(&mut db, "aB3kT9zQ"));
    assert_eq!(lookup_token(&db, "aB3kT9zQ"), Some(true));
    assert!(token_exist(&db, "aB3kT9zQ"));
}

#[test]
fn registering_one_token_says_nothing_of_another() {
    let mut db = fresh("registering_one_token_says_nothing_of_another");
    assert!(write_token(&mut db, "aB3kT9zQ"));
    assert!(!token_exist(&db, "aB3kT9zq"));
    assert!(!token_exist(&db, "aB3kT9z"));
    assert!(!token_exist(&db, "aB3kT9zQ1"));
    assert!(!token_exist(&db, "token-aB3kT9zQ"));
}

#[test]
fn registered_token_stays_registered() {
    let mut db = fresh("registered_token_stays_registered");
    assert!(write_token(&mut db, "first001"));
    let mut n: usize = 0;
    while n < 50 {
        let other = format!("other{:03}", n);
        assert!(write_token(&mut db, &other));
        restkv::post_value(&mut db, other, "k".to_string(), b"v".to_vec());
        assert!(token_exist(&db, "first001"));
        n += 1;
    }
    assert!(token_exist(&db, "first001"));
}

#[test]
fn registering_twice_counts_once() {
    let mut db = fresh("registering_twice_counts_once");
    assert!(write_token(&mut db, "aB3kT9zQ"));
    assert!(write_token(&mut db, "aB3kT9zQ"));
    assert!(write_token(&mut db, "Zz000000"));
    assert_eq!(stats(&db), "serving 2 access token, 0 k-v pairs");
}

#[test]
fn generated_token_has_eight_letters_or_digits() {
    let db = fresh("generated_token_has_eight_letters_or_digits");
    let mut n: usize = 0;
    while n < 200 {
        let token = random_token(&db, 4).unwrap();
        assert_eq!(token.chars().count(), TOKEN_LEN);
        assert_eq!(token.len(), 8);
        assert!(token.chars().all(|c| c.is_ascii_alphanumeric()));
        n += 1;
    }
}

#[test]
fn generated_token_is_not_registered_yet() {
    let mut db = fresh("generated_token_is_not_registered_yet");
    let mut n: usize = 0;
    while n < 100 {
        let token = random_token(&db, 4).unwrap();
        assert!(!token_exist(&db, &token));
        assert!(write_token(&mut db, &token));
        assert!(token_exist(&db, &token));
        n += 1;
    }
    assert_eq!(stats(&db), "serving 100 access token, 0 k-v pairs");
}

#[test]
fn generated_tokens_differ() {
    let db = fresh("generated_tokens_differ");
    let a = random_token(&db, 1).unwrap();
    let b = random_token(&db, 1).unwrap();
    let c = random_token(&db, 1).unwrap();
    assert!(a != b || b != c);
}

#[test]
fn no_attempts_no_token() {
    let db = fresh("no_attempts_no_token");
    assert_eq!(random_token(&db, 0), None);
}
