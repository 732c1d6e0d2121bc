//! The auth service: register, login, logout and the session read that
//! guards protected content, orchestrating the store, the hasher and the
//! session manager.

use vstd::prelude::*;

use crate::credential;
use crate::credential::hash_matches;
use crate::errors::AuthError;
use crate::session::{token_claim, SessionManager};
use crate::store::{contains_name, lemma_unique_name_index, UserRecord, UserStore};

verus! {

/// What a request is to the server: anonymous, or authenticated as one
/// username — the only claim a session carries.
#[derive(Clone, Debug, PartialEq, Eq)]
pub enum AuthState {
    Anonymous,
    Authenticated(String),
}

/// The credential-and-session service.  It owns only the process-wide
/// session key (inside its session manager); the user store is handed in
/// by the caller, exclusively borrowed for each mutating operation.
pub struct AuthService {
    sessions: SessionManager,
}

impl View for AuthService {
    type V = Seq<u8>;

    closed spec fn view(&self) -> Seq<u8> {
        self.sessions@
    }
}

impl AuthService {
    pub open spec fn wf(&self) -> bool {
        self@.len() >= 64
    }

    /// A service under a fresh random session key.
    pub fn new() -> (s: AuthService)
        ensures
            s.wf(),
    {
        AuthService { sessions: SessionManager::new() }
    }

    /// A service under a caller-chosen session key of at least 64 bytes,
    /// for deterministic tests and explicit key lifecycles.
    pub fn with_key(key: Vec<u8>) -> (r: Option<AuthService>)
        ensures
            match r {
                Some(s) => s.wf() && s@ == key@,
                None => key@.len() < 64,
            },
    {
        match SessionManager::with_key(key) {
            Some(m) => Some(AuthService { sessions: m }),
            None => None,
        }
    }

    /// Register a new user: reject empty username or password at the
    /// boundary, reject a taken username, otherwise hash the password and
    /// append the record.  Registration does not log the user in.
    ///
    /// The whole check-then-append runs over the exclusively borrowed
    /// store, so calls serialized by one lock around the store are
    /// linearized: at most one call wins any given username, and every
    /// later one fails with `UsernameTaken` and changes nothing.
    pub fn register(&self, store: &mut UserStore, username: &str, password: &str) -> (r: Result<
        (),
        AuthError,
    >)
        requires
            old(store).wf(),
        ensures
            final(store).wf(),
            username@.len() == 0 || password@.len() == 0 ==> r == Err::<(), AuthError>(
                AuthError::ValidationError,
            ) && final(store)@ == old(store)@,
            username@.len() > 0 && password@.len() > 0 && contains_name(old(store)@, username@)
                ==> r == Err::<(), AuthError>(AuthError::UsernameTaken) && final(store)@ == old(
                store,
            )@,
            r is Ok ==> username@.len() > 0 && password@.len() > 0 && !contains_name(
                old(store)@,
                username@,
            ) && final(store)@ == old(store)@.push((username@, final(store)@.last().1))
                && hash_matches(final(store)@.last().1, password@) && contains_name(
                final(store)@,
                username@,
            ),
            r == Err::<(), AuthError>(AuthError::HashingError) ==> final(store)@ == old(store)@,
            username@.len() > 0 && password@.len() > 0 && !contains_name(old(store)@, username@)
                ==> (r is Ok || r == Err::<(), AuthError>(AuthError::HashingError)),
            r is Err ==> (r == Err::<(), AuthError>(AuthError::ValidationError) || r == Err::<
                (),
                AuthError,
            >(AuthError::UsernameTaken) || r == Err::<(), AuthError>(AuthError::HashingError)),
    {
        if username.is_empty() || password.is_empty() {
            return Err(AuthError::ValidationError);
        }
        if store.contains(username) {
            return Err(AuthError::UsernameTaken);
        }
        let password_hash = match credential::hash(password) {
            Ok(h) => h,
            Err(_) => {
                return Err(AuthError::HashingError);
            },
        };
        let rec = UserRecord { username: username.to_owned(), password_hash };
        match store.append_if_absent(rec) {
            Ok(()) => {
                proof {
                    assert(final(store)@.last() == (username@, final(store)@.last().1));
                }
                Ok(())
            },
            Err(e) => {
                proof {
                    assert(false);
                }
                Err(e)
            },
        }
    }

    /// Log a user in: find the record, verify the password, and on
    /// success mint the session token.  An unknown username and a wrong
    /// password return the same `InvalidCredentials`, indistinguishable
    /// to the caller.
    pub fn login(&self, store: &UserStore, username: &str, password: &str) -> (r: Result<
        String,
        AuthError,
    >)
        requires
            self.wf(),
            store.wf(),
        ensures
            r is Ok <==> exists|i: int|
                0 <= i < store@.len() && store@[i].0 == username@ && hash_matches(
                    store@[i].1,
                    password@,
                ),
            (r matches Ok(t) ==> token_claim(self@, t@) == Some(username@) && t@.len() > 0),
            (r matches Err(e) ==> e == AuthError::InvalidCredentials),
    {
        match store.find(username) {
            Some(rec) => {
                if credential::verify(rec.password_hash.as_str(), password) {
                    proof {
                        let j = choose|j: int| 0 <= j < store@.len() && store@[j] == rec@;
                        assert(store@[j].0 == username@ && hash_matches(store@[j].1, password@));
                    }
                    Ok(self.sessions.issue(username))
                } else {
                    proof {
                        if exists|i: int|
                            0 <= i < store@.len() && store@[i].0 == username@ && hash_matches(
                                store@[i].1,
                                password@,
                            ) {
                            let i = choose|i: int|
                                0 <= i < store@.len() && store@[i].0 == username@ && hash_matches(
                                    store@[i].1,
                                    password@,
                                );
                            let j = choose|j: int| 0 <= j < store@.len() && store@[j] == rec@;
                            lemma_unique_name_index(store@, i, j);
                        }
                    }
                    Err(AuthError::InvalidCredentials)
                }
            },
            None => Err(AuthError::InvalidCredentials),
        }
    }

    /// Log out: the returned token clears the session cookie and reads as
    /// no session.  Unconditional, idempotent, and independent of whether
    /// the prior session was valid.
    pub fn logout(&self) -> (t: String)
        ensures
            t@.len() == 0,
    {
        self.sessions.purge()
    }

    /// The state a token proves, asked before serving protected content.
    /// A missing, malformed, tampered or foreign-key token degrades to
    /// `Anonymous`, never to an error.
    pub fn authenticate(&self, token: &str) -> (st: AuthState)
        requires
            self.wf(),
        ensures
            (match st {
                AuthState::Authenticated(u) => token_claim(self@, token@) == Some(u@),
                AuthState::Anonymous => token_claim(self@, token@) is None,
            }),
            token@.len() == 0 ==> st == AuthState::Anonymous,
    {
        match self.sessions.read(token) {
            Some(u) => AuthState::Authenticated(u),
            None => AuthState::Anonymous,
        }
    }
}

} // verus!
