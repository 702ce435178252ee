//! The failure taxonomy of the lifecycle operations.

use vstd::prelude::*;

verus! {

/// Every operation reports failure as one of these kinds, so a caller can
/// tell machine-distinguishable failures apart without parsing text.
#[derive(Debug, Clone, Copy, PartialEq, Eq, Structural)]
pub enum Error {
    /// The phrase is not a valid mnemonic under the requested wordlist
    /// (unknown word or bad checksum).
    InvalidMnemonic,
    /// A generation request asked for a word count outside the allowed
    /// entropy sizes.
    UnsupportedWordCount,
    /// An import derived a public key that the metadata store already holds.
    DuplicateIdentity,
    /// No metadata record exists for the requested public key.
    IdentityNotFound,
    /// The secret vault holds no value for the requested key and kind.
    SecretNotFound,
    /// The underlying metadata or secret backend failed.
    StoreUnavailable,
    /// A lifecycle event could not be delivered to an observer.
    NotificationFailed,
}

impl Error {
    /// The human-readable wording that `message` returns for each kind.
    pub open spec fn spec_message(self) -> Seq<char> {
        match self {
            Error::InvalidMnemonic => "the phrase is not a valid mnemonic"@,
            Error::UnsupportedWordCount => "the requested word count is not supported"@,
            Error::DuplicateIdentity => "an identity with this public key already exists"@,
            Error::IdentityNotFound => "no identity with this public key exists"@,
            Error::SecretNotFound => "the requested secret is missing from the vault"@,
            Error::StoreUnavailable => "a storage backend is unavailable"@,
            Error::NotificationFailed => "a lifecycle event could not be delivered"@,
        }
    }

    /// A human-readable message beside the machine-readable kind.
    pub fn message(&self) -> (r: String)
        ensures
            r@ == self.spec_message(),
    {
        match self {
            Error::InvalidMnemonic => "the phrase is not a valid mnemonic".to_owned(),
            Error::UnsupportedWordCount => "the requested word count is not supported".to_owned(),
            Error::DuplicateIdentity => "an identity with this public key already exists".to_owned(),
            Error::IdentityNotFound => "no identity with this public key exists".to_owned(),
            Error::SecretNotFound => "the requested secret is missing from the vault".to_owned(),
            Error::StoreUnavailable => "a storage backend is unavailable".to_owned(),
            Error::NotificationFailed => "a lifecycle event could not be delivered".to_owned(),
        }
    }
}

} // verus!
