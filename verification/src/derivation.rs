//! Identity derivation: from a mnemonic phrase, a wording language and a
//! passphrase to a public identity key, and generation of fresh phrases.
//!
//! The cryptography (checksum validation, PBKDF2 seed stretching, ed25519 key
//! generation, base58 rendering) lives in outside crates; this module states
//! what those calls return and proves the decision logic around them.

use solana_sdk::signer::Signer;
use vstd::prelude::*;

use crate::errors::Error;

verus! {

/// The public identity key that the outside derivation pipeline returns for a
/// given mnemonic phrase and passphrase. The result depends on those two
/// inputs alone: the wording language only gates which phrases are accepted,
/// it does not enter the seed computation.
pub uninterp spec fn derived_key_of(phrase: Seq<char>, passphrase: Seq<char>) -> Seq<char>;

/// Whether the outside wordlist validation accepts `phrase` as a mnemonic
/// under the wordlist that `language_code` names. An unknown code falls back
/// to the English wordlist.
pub uninterp spec fn phrase_valid(language_code: Seq<char>, phrase: Seq<char>) -> bool;

/// Relies on `bip39::Mnemonic::from_phrase` (word and checksum validation;
/// succeeds exactly when the phrase is valid under the wordlist, where
/// `bip39::Language::from_language_code` resolves unknown codes to the
/// English default), `bip39::Seed::new` (a 64-byte PBKDF2 seed computed from
/// the normalized phrase and the passphrase alone, so
/// `solana_sdk::signature::keypair_from_seed` never rejects its length), and
/// `solana_sdk::signer::Signer::pubkey` rendered through the base58 display
/// of a 32-byte key, which writes between 1 and 44 characters.
#[verifier::external_body]
fn derive_key_raw(phrase: &str, language_code: &str, passphrase: &str) -> (r: Option<String>)
    ensures
        r is Some <==> phrase_valid(language_code@, phrase@),
        r is Some ==> r->0@ == derived_key_of(phrase@, passphrase@),
        r is Some ==> 1 <= r->0@.len() <= 44,
{
    let language = bip39::Language::from_language_code(language_code).unwrap_or_default();
    match bip39::Mnemonic::from_phrase(phrase, language) {
        Ok(mnemonic) => {
            let seed = bip39::Seed::new(&mnemonic, passphrase);
            match solana_sdk::signature::keypair_from_seed(seed.as_bytes()) {
                Ok(keypair) => Some(Signer::pubkey(&keypair).to_string()),
                Err(_) => None,
            }
        }
        Err(_) => None,
    }
}

/// Relies on `bip39::Mnemonic::new`: a phrase drawn from fresh entropy of the
/// requested size over the wordlist that `language_code` names (unknown codes
/// fall back to English), carrying its own checksum, so the same wordlist
/// accepts it again. The result depends on the drawn entropy, so nothing is
/// stated about which phrase comes back.
#[verifier::external_body]
fn random_phrase_raw(word_count: usize, language_code: &str) -> (r: String)
    requires
        supported_word_count(word_count),
    ensures
        phrase_valid(language_code@, r@),
        r@.len() > 0,
{
    let language = bip39::Language::from_language_code(language_code).unwrap_or_default();
    let mnemonic_type = bip39::MnemonicType::for_word_count(word_count).unwrap();
    bip39::Mnemonic::new(mnemonic_type, language).into_phrase()
}

/// The entropy sizes that the wordlists allow, counted in words.
pub open spec fn supported_word_count(word_count: usize) -> bool {
    word_count == 12 || word_count == 15 || word_count == 18 || word_count == 21
        || word_count == 24
}

/// Produces a fresh random mnemonic phrase of `word_count` words over the
/// wordlist that `language_code` names. Exactly the unsupported word counts
/// are rejected; an accepted request yields a phrase that `derive_public_key`
/// accepts under the same wording language.
pub fn generate_mnemonic_phrase(word_count: usize, language_code: &str) -> (r: Result<
    String,
    Error,
>)
    ensures
        r is Ok <==> supported_word_count(word_count),
        !supported_word_count(word_count) ==> r == Err::<String, Error>(
            Error::UnsupportedWordCount,
        ),
        r is Ok ==> phrase_valid(language_code@, r->Ok_0@) && r->Ok_0@.len() > 0,
{
    if word_count == 12 || word_count == 15 || word_count == 18 || word_count == 21
        || word_count == 24 {
        Ok(random_phrase_raw(word_count, language_code))
    } else {
        Err(Error::UnsupportedWordCount)
    }
}

/// Derives the public identity key for a (phrase, wording language,
/// passphrase) triple. Pure and deterministic: the result is a function of
/// the inputs alone. Exactly the phrases that the wordlist rejects fail, with
/// `InvalidMnemonic`; an empty passphrase is a valid, distinct input, not an
/// error.
pub fn derive_public_key(phrase: &str, language_code: &str, passphrase: &str) -> (r: Result<
    String,
    Error,
>)
    ensures
        r is Ok <==> phrase_valid(language_code@, phrase@),
        !phrase_valid(language_code@, phrase@) ==> r == Err::<String, Error>(
            Error::InvalidMnemonic,
        ),
        r is Ok ==> r->Ok_0@ == derived_key_of(phrase@, passphrase@),
        r is Ok ==> 1 <= r->Ok_0@.len() <= 44,
{
    match derive_key_raw(phrase, language_code, passphrase) {
        Some(key) => Ok(key),
        None => Err(Error::InvalidMnemonic),
    }
}

/// Law: derivation is deterministic. Two results of `derive_public_key` for
/// the same phrase and passphrase are the same key, whatever order or process
/// produced them.
pub proof fn lemma_derive_deterministic(
    phrase: Seq<char>,
    passphrase: Seq<char>,
    key1: Seq<char>,
    key2: Seq<char>,
)
    requires
        key1 == derived_key_of(phrase, passphrase),
        key2 == derived_key_of(phrase, passphrase),
    ensures
        key1 == key2,
{
}

} // verus!
