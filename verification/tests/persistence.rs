use rust_login::errors::AuthError;
use rust_login::store::{UserRecord, UserStore};

fn record(username: &str, password_hash: &str) -> UserRecord {
    UserRecord {
        username: username.to_string(),
        password_hash: password_hash.to_string(),
    }
}

#[test]
fn empty_store_round_trips() {
    let store = UserStore::new();
    let encoded = store.encode();
    assert_eq!(encoded, "");
    let reloaded = UserStore::from_encoded(&encoded).expect("own encoding decodes");
    assert_eq!(reloaded.len(), 0);
}

#[test]
fn encoding_is_fields_with_terminators() {
    let mut store = UserStore::new();
    assert!(store.append_if_absent(record("a", "b")).is_ok());
    assert_eq!(store.encode(), "a\nb\n");
}

#[test]
fn escapes_have_exact_encoding() {
    let mut store = UserStore::new();
    assert!(store.append_if_absent(record("a\nb", "c\\d")).is_ok());
    assert_eq!(store.encode(), "a\\nb\nc\\\\d\n");
}

#[test]
fn populated_store_round_trips() {
    let mut store = UserStore::new();
    assert!(store.append_if_absent(record("alice", "$argon2id$fake$1")).is_ok());
    assert!(store.append_if_absent(record("bob\nwith newline", "hash\\with\\backslashes")).is_ok());
    assert!(store.append_if_absent(record("碰", "")).is_ok());
    let encoded = store.encode();
    let reloaded = UserStore::from_encoded(&encoded).expect("own encoding decodes");
    assert_eq!(reloaded.len(), 3);
    for i in 0..3 {
        assert_eq!(reloaded.record_at(i).username, store.record_at(i).username);
        assert_eq!(
            reloaded.record_at(i).password_hash,
            store.record_at(i).password_hash
        );
    }
}

#[test]
fn corrupt_inputs_are_storage_errors() {
    // An unterminated final field.
    assert_eq!(
        UserStore::from_encoded("alice").unwrap_err(),
        AuthError::StorageError
    );
    // A dangling escape.
    assert_eq!(
        UserStore::from_encoded("alice\\").unwrap_err(),
        AuthError::StorageError
    );
    // An unknown escape.
    assert_eq!(
        UserStore::from_encoded("al\\ice\nh\n").unwrap_err(),
        AuthError::StorageError
    );
    // An odd number of fields: a username with no hash.
    assert_eq!(
        UserStore::from_encoded("alice\n").unwrap_err(),
        AuthError::StorageError
    );
}

#[test]
fn duplicate_usernames_in_file_are_storage_errors() {
    assert_eq!(
        UserStore::from_encoded("alice\nh1\nalice\nh2\n").unwrap_err(),
        AuthError::StorageError
    );
}

#[test]
fn append_keeps_order_and_uniqueness() {
    let mut store = UserStore::new();
    assert!(store.append_if_absent(record("a", "1")).is_ok());
    assert!(store.append_if_absent(record("b", "2")).is_ok());
    assert_eq!(
        store.append_if_absent(record("a", "3")).unwrap_err(),
        AuthError::UsernameTaken
    );
    assert_eq!(store.len(), 2);
    assert_eq!(store.record_at(0).username, "a");
    assert_eq!(store.record_at(0).password_hash, "1");
    assert_eq!(store.record_at(1).username, "b");
    assert!(store.contains("a"));
    assert!(store.contains("b"));
    assert!(!store.contains("c"));
    assert!(store.find("b").is_some());
    assert!(store.find("c").is_none());
}
