//! Stateless signed-cookie sessions.
//!
//! The server holds one secret key for its lifetime and no session table:
//! the cookie value itself is the session state.  A token that verifies
//! under the current key is authentic and its claim is trusted without
//! further lookup; changing the key invalidates every outstanding token.

use vstd::prelude::*;

verus! {

/// What reading a token under a key yields: the authenticated username,
/// or nothing where the token is malformed or signed under another key.
/// This names what signed-cookie verification returns: the digest and the
/// derived signing key are functions of the token and the master key
/// bytes alone, so the outcome is too.
pub uninterp spec fn token_claim(key: Seq<u8>, token: Seq<char>) -> Option<Seq<char>>;

/// Relies on cookie's `Key::generate` (through actix-web): a fresh random
/// master key of exactly 64 bytes.
#[verifier::external_body]
fn generate_key_bytes() -> (k: Vec<u8>)
    ensures
        k@.len() == 64,
{
    actix_web::cookie::Key::generate().master().to_vec()
}

/// Relies on cookie's signed jar (through actix-web): adding a cookie
/// signs its value — digest then plain value, so never empty — and
/// verifying the stored value under the same key returns the plain value.
/// `Key::from` accepts any master key of at least 64 bytes.
#[verifier::external_body]
fn sign_token(key: &Vec<u8>, username: &str) -> (t: String)
    requires
        key@.len() >= 64,
    ensures
        token_claim(key@, t@) == Some(username@),
        t@.len() > 0,
{
    let k = actix_web::cookie::Key::from(key);
    let mut jar = actix_web::cookie::CookieJar::new();
    jar.signed_mut(&k).add(actix_web::cookie::Cookie::new("session", username.to_string()));
    jar.get("session").expect("just added").value().to_string()
}

/// Relies on cookie's signed jar verification (through actix-web): the
/// embedded value comes back exactly when the digest verifies under the
/// key; a value shorter than the digest — the empty token in particular —
/// never verifies; and the outcome is a function of key and token alone.
#[verifier::external_body]
fn read_token(key: &Vec<u8>, token: &str) -> (r: Option<String>)
    requires
        key@.len() >= 64,
    ensures
        (match r {
            Some(u) => token_claim(key@, token@) == Some(u@),
            None => token_claim(key@, token@) is None,
        }),
        token@.len() == 0 ==> r is None,
{
    let k = actix_web::cookie::Key::from(key);
    let mut jar = actix_web::cookie::CookieJar::new();
    jar.add_original(actix_web::cookie::Cookie::new("session", token.to_string()));
    match jar.signed(&k).get("session") {
        Some(c) => Some(c.value().to_string()),
        None => None,
    }
}

/// Issues, reads and invalidates the opaque session token carried by the
/// browser cookie.  Reading is a pure function of token and key, so
/// concurrent requests need no locking here.
pub struct SessionManager {
    key: Vec<u8>,
}

impl View for SessionManager {
    type V = Seq<u8>;

    closed spec fn view(&self) -> Seq<u8> {
        self.key@
    }
}

impl SessionManager {
    /// The key is long enough for the signing primitive.
    pub open spec fn wf(&self) -> bool {
        self@.len() >= 64
    }

    /// A manager under a fresh random key, generated once at startup and
    /// never persisted: tokens from any earlier key now read as no
    /// session.
    pub fn new() -> (s: SessionManager)
        ensures
            s.wf(),
    {
        SessionManager { key: generate_key_bytes() }
    }

    /// A manager under a caller-chosen key of at least 64 bytes.  Fixed
    /// keys give deterministic managers, for tests and key injection.
    pub fn with_key(key: Vec<u8>) -> (r: Option<SessionManager>)
        ensures
            match r {
                Some(s) => s.wf() && s@ == key@,
                None => key@.len() < 64,
            },
    {
        if key.len() >= 64 {
            Some(SessionManager { key })
        } else {
            None
        }
    }

    /// Mint the session token for a user: under the same key it reads
    /// back as exactly this username, and it is never the empty purge
    /// token.
    pub fn issue(&self, username: &str) -> (t: String)
        requires
            self.wf(),
        ensures
            token_claim(self@, t@) == Some(username@),
            t@.len() > 0,
    {
        sign_token(&self.key, username)
    }

    /// Read a token: the embedded username where it is authentic under
    /// the current key, nothing otherwise.  Absence of a valid session is
    /// a normal outcome, never an error.
    pub fn read(&self, token: &str) -> (r: Option<String>)
        requires
            self.wf(),
        ensures
            (match r {
                Some(u) => token_claim(self@, token@) == Some(u@),
                None => token_claim(self@, token@) is None,
            }),
            token@.len() == 0 ==> r is None,
    {
        read_token(&self.key, token)
    }

    /// The token that instructs the client to drop the cookie: empty, so
    /// it never reads as a session.  Purging an already absent session is
    /// not an error.
    pub fn purge(&self) -> (t: String)
        ensures
            t@.len() == 0,
    {
        String::new()
    }
}

} // verus!
