//! Credential-and-session core of a small login service.
//!
//! The library covers password hashing and verification, a user record
//! store with a uniqueness invariant and a round-trippable on-disk
//! encoding, signed session tokens, and the auth service that ties them
//! together.  File and network I/O stay outside; callers hand the library
//! plain strings and take plain values back.

mod chars;
pub mod codec;
pub mod credential;
pub mod errors;
pub mod service;
pub mod session;
pub mod store;
