//! A sample credential store: in memory, optionally saved to a backing file,
//! and able to hold several credentials for one `(service, user)` pair.
//!
//! An entry made with the `target` modifier forces a new credential, with an
//! empty secret, a `comment` attribute holding the modifier's value and a
//! `creation_date` attribute holding the local time. Where the pair already
//! had a credential, entries that only name the pair become ambiguous.
//!
//! Search takes patterns for `service`, `user`, `comment` and `uuid`; a
//! credential is found when every pattern given matches.
pub mod cred_map;
pub mod credential;
pub mod dash;
pub mod laws;
pub mod pattern;
pub mod store;
