use deskd::web::magic_link::{generate_token, hash_token, TokenStore};

#[test]
fn issue_returns_token_consumable_within_ttl() {
    let mut store = TokenStore::new();
    let token = store.issue(42, 1_000_000).unwrap();
    let entry = store.consume(&token, 999_000).expect("token valid");
    assert_eq!(entry.telegram_id, 42);
}

#[test]
fn second_consume_returns_none() {
    let mut store = TokenStore::new();
    let token = store.issue(42, 1_000_000).unwrap();
    assert!(store.consume(&token, 999_000).is_some());
    assert!(store.consume(&token, 999_000).is_none());
}

#[test]
fn expired_token_consume_returns_none_and_evicts() {
    let mut store = TokenStore::new();
    let token = store.issue(42, 1000).unwrap();
    assert_eq!(store.len(), 1);
    assert!(store.consume(&token, 2000).is_none());
    assert_eq!(store.len(), 0);
}

#[test]
fn unknown_token_returns_none() {
    let mut store = TokenStore::new();
    assert!(store.consume("nonsense", 0).is_none());
}

#[test]
fn store_does_not_keep_plaintext_tokens() {
    let mut store = TokenStore::new();
    let token = store.issue(7, 1_000_000).unwrap();
    let keys = store.keys();
    assert!(!keys.contains(&token));
    assert_eq!(keys.len(), 1);
    let key = &keys[0];
    assert_eq!(key.len(), 64);
    assert!(key.chars().all(|c| c.is_ascii_hexdigit()));
    assert_eq!(key, &hash_token(&token));
}

#[test]
fn sweep_drops_only_expired() {
    let mut store = TokenStore::new();
    let _t1 = store.issue(1, 1000).unwrap();
    let _t2 = store.issue(2, 5000).unwrap();
    assert_eq!(store.len(), 2);
    store.sweep_expired(1500);
    assert_eq!(store.len(), 1);
}

#[test]
fn issued_tokens_are_unique() {
    let mut store = TokenStore::new();
    let a = store.issue(1, 1_000_000).unwrap();
    let b = store.issue(2, 1_000_000).unwrap();
    assert_ne!(a, b);
}

#[test]
fn token_digest() {
    assert_eq!(
        hash_token("abc"),
        "ba7816bf8f01cfea414140de5dae2223b00361a396177a9cb410ff61f20015ad"
    );
    assert_eq!(generate_token().unwrap().len(), 43);
}

#[test]
fn expiry_is_inclusive() {
    let mut store = TokenStore::default();
    assert!(store.is_empty());
    store.store("t", 9, 1000);
    assert!(!store.is_empty());
    let kept = store.consume("t", 1000);
    store.store("t", 9, 1000);
    let late = store.consume("t", 1001);
    assert!(late.is_none());
    assert_eq!(kept.map(|p| p.telegram_id), Some(9));
}

#[test]
fn a_drawn_token_is_stored() {
    let mut store = TokenStore::new();
    assert!(store.issue_drawn(None, 1, 10).is_none());
    assert!(store.is_empty());
    assert_eq!(store.issue_drawn(Some("tok".into()), 7, 10).as_deref(), Some("tok"));
    assert_eq!(store.keys(), vec![hash_token("tok")]);
    let entry = store.consume("tok", 10).unwrap();
    assert_eq!(entry.telegram_id, 7);
    assert_eq!(entry.expires_at, 10);
    assert!(store.consume("tok", 10).is_none());
}
