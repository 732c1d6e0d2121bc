use rust_login::credential;
use rust_login::errors::AuthError;
use rust_login::service::{AuthService, AuthState};
use rust_login::store::UserStore;

fn service_with(byte: u8) -> AuthService {
    AuthService::with_key(vec![byte; 64]).expect("64-byte key accepted")
}

#[test]
fn hash_verifies_same_password() {
    let h = credential::hash("hunter2").expect("hashing succeeds");
    assert!(credential::verify(&h, "hunter2"));
}

#[test]
fn verify_rejects_wrong_password() {
    let h = credential::hash("hunter2").expect("hashing succeeds");
    assert!(!credential::verify(&h, "hunter3"));
    assert!(!credential::verify(&h, ""));
}

#[test]
fn two_hashes_differ_yet_both_verify() {
    let h1 = credential::hash("same password").expect("hashing succeeds");
    let h2 = credential::hash("same password").expect("hashing succeeds");
    assert_ne!(h1, h2);
    assert!(credential::verify(&h1, "same password"));
    assert!(credential::verify(&h2, "same password"));
}

#[test]
fn malformed_stored_hash_reads_as_mismatch() {
    assert!(!credential::verify("not a phc string", "pw"));
    assert!(!credential::verify("", "pw"));
}

#[test]
fn duplicate_registration_rejected() {
    let svc = service_with(7);
    let mut store = UserStore::new();
    assert!(svc.register(&mut store, "alice", "pw").is_ok());
    assert_eq!(
        svc.register(&mut store, "alice", "other"),
        Err(AuthError::UsernameTaken)
    );
    assert_eq!(store.len(), 1);
    assert_eq!(store.record_at(0).username, "alice");
}

#[test]
fn contended_username_has_exactly_one_winner() {
    // Five registration attempts for one username, linearized as the
    // locking discipline around a shared store prescribes.
    let svc = service_with(7);
    let mut store = UserStore::new();
    let mut won: usize = 0;
    let mut taken: usize = 0;
    for _ in 0..5 {
        match svc.register(&mut store, "popular", "pw") {
            Ok(()) => won += 1,
            Err(e) => {
                assert_eq!(e, AuthError::UsernameTaken);
                taken += 1;
            }
        }
    }
    assert_eq!(won, 1);
    assert_eq!(taken, 4);
    assert_eq!(store.len(), 1);
    assert_eq!(store.record_at(0).username, "popular");
}

#[test]
fn register_rejects_empty_fields() {
    let svc = service_with(7);
    let mut store = UserStore::new();
    assert_eq!(
        svc.register(&mut store, "", "pw"),
        Err(AuthError::ValidationError)
    );
    assert_eq!(
        svc.register(&mut store, "alice", ""),
        Err(AuthError::ValidationError)
    );
    assert_eq!(store.len(), 0);
}

#[test]
fn login_issues_session_that_authenticates() {
    let svc = service_with(7);
    let mut store = UserStore::new();
    assert!(svc.register(&mut store, "alice", "pw").is_ok());
    let token = svc.login(&store, "alice", "pw").expect("correct credentials");
    assert_eq!(
        svc.authenticate(&token),
        AuthState::Authenticated("alice".to_string())
    );
}

#[test]
fn login_failures_are_indistinguishable() {
    let svc = service_with(7);
    let mut store = UserStore::new();
    assert!(svc.register(&mut store, "alice", "pw").is_ok());
    let wrong_password = svc.login(&store, "alice", "bad").unwrap_err();
    let unknown_user = svc.login(&store, "bob", "pw").unwrap_err();
    assert_eq!(wrong_password, unknown_user);
    assert_eq!(wrong_password, AuthError::InvalidCredentials);
}

#[test]
fn logout_token_reads_anonymous() {
    let svc = service_with(7);
    let mut store = UserStore::new();
    assert!(svc.register(&mut store, "alice", "pw").is_ok());
    let token = svc.login(&store, "alice", "pw").expect("correct credentials");
    assert_eq!(
        svc.authenticate(&token),
        AuthState::Authenticated("alice".to_string())
    );
    let cleared = svc.logout();
    assert_eq!(svc.authenticate(&cleared), AuthState::Anonymous);
}

#[test]
fn token_fails_under_another_key() {
    // A fresh key at restart invalidates every outstanding token.
    let first = service_with(7);
    let second = service_with(8);
    let mut store = UserStore::new();
    assert!(first.register(&mut store, "alice", "pw").is_ok());
    let token = first
        .login(&store, "alice", "pw")
        .expect("correct credentials");
    assert_eq!(
        first.authenticate(&token),
        AuthState::Authenticated("alice".to_string())
    );
    assert_eq!(second.authenticate(&token), AuthState::Anonymous);
}

#[test]
fn foreign_tokens_read_anonymous() {
    let svc = service_with(7);
    assert_eq!(svc.authenticate(""), AuthState::Anonymous);
    assert_eq!(svc.authenticate("garbage"), AuthState::Anonymous);
}

#[test]
fn short_key_is_refused() {
    assert!(AuthService::with_key(vec![7; 63]).is_none());
    assert!(AuthService::with_key(Vec::new()).is_none());
}
