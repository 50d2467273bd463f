use respkv::record::Record;
use respkv::repository::Repository;

#[test]
fn test_set() {
    let mut repo = Repository::new();
    let key = String::from("x");
    let record = Record::String("abc".to_string());
    repo.set(key.clone(), record);

    assert_eq!(repo.store_len(), 1);
    assert_eq!(repo.get(key, 0), Some(Record::String("abc".to_string())));
}

#[test]
fn test_clear() {
    let mut repo = Repository::new();
    let expires_at = 10;
    let key = String::from("x");
    let record = Record::String("abc".to_string());
    repo.set(key.clone(), record);
    repo.set_expiration(key.clone(), expires_at, 0);

    assert_eq!(repo.store_len(), 1);
    assert_eq!(repo.expires_len(), 1);

    repo.clear();
    assert_eq!(repo.store_len(), 0);
    assert_eq!(repo.expires_len(), 0);
}

#[test]
fn test_delete() {
    let mut repo = Repository::new();
    let expires_at = 10;
    let key = String::from("x");
    let record = Record::String("abc".to_string());
    repo.set(key.clone(), record);
    repo.set_expiration(key.clone(), expires_at, 0);

    assert_eq!(repo.store_len(), 1);
    assert_eq!(repo.expires_len(), 1);

    repo.delete(key);
    assert_eq!(repo.store_len(), 0);
    assert_eq!(repo.expires_len(), 0);
}

#[test]
fn test_get_expired() {
    let mut repo = Repository::new();
    let expires_at = 90;
    let key = String::from("x");
    let record = Record::String("abc".to_string());
    repo.set(key.clone(), record);
    repo.set_expiration(key.clone(), expires_at, 100);

    assert_eq!(repo.get(key, 100), None);

    assert_eq!(repo.store_len(), 0);
    assert_eq!(repo.expires_len(), 0);
}

#[test]
fn test_get_not_yet_expired() {
    let mut repo = Repository::new();
    let key = String::from("x");
    repo.set(key.clone(), Record::String("abc".to_string()));
    repo.set_expiration(key.clone(), 10, 0);
    assert_eq!(
        repo.get(key.clone(), 10),
        Some(Record::String("abc".to_string()))
    );
    assert_eq!(repo.get(key, 11), None);
}

#[test]
fn test_delete_is_idempotent() {
    let mut repo = Repository::new();
    assert_eq!(repo.delete("missing".to_string()), None);
    repo.set("x".to_string(), Record::String("1".to_string()));
    assert_eq!(
        repo.delete("x".to_string()),
        Some(Record::String("1".to_string()))
    );
    assert_eq!(repo.delete("x".to_string()), None);
}

#[test]
fn test_set_expiration_on_missing_key_is_noop() {
    let mut repo = Repository::new();
    repo.set_expiration("ghostly".to_string(), 10, 0);
    assert_eq!(repo.expires_len(), 0);
}

#[test]
fn test_hash_record_round_trip() {
    let mut repo = Repository::new();
    let entries = vec![
        ("f".to_string(), "1".to_string()),
        ("g".to_string(), "2".to_string()),
    ];
    repo.set("h".to_string(), Record::HashMap(entries.clone()));
    assert_eq!(repo.get("h".to_string(), 0), Some(Record::HashMap(entries)));
}
