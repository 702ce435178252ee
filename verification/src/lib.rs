//! A dual-store credential lifecycle manager for mnemonic-derived wallet
//! identities.
//!
//! An identity is derived deterministically from a mnemonic phrase, a wording
//! language and an optional passphrase. Each imported identity is kept as one
//! logical unit spread over two stores: a metadata record (public key, wording
//! language, import timestamp) in a queryable metadata store, and two secret
//! records (the seed passphrase and the mnemonic phrase itself) in a secret
//! vault keyed per identity and secret kind. The lifecycle manager creates,
//! looks up and destroys these units while keeping the two stores mutually
//! consistent.

pub mod derivation;
pub mod errors;
pub mod manager;
pub mod metadata;
pub mod vault;
