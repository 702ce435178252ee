use solana_wallet::derivation::derive_public_key;
use solana_wallet::derivation::generate_mnemonic_phrase;
use solana_wallet::errors::Error;

const PHRASE_A: &str = "abandon abandon abandon abandon abandon abandon abandon abandon abandon abandon abandon about";
const PHRASE_B: &str = "legal winner thank year wave sausage worth useful legal winner thank yellow";

#[test]
fn derive_is_deterministic() {
    let k1 = derive_public_key(PHRASE_A, "en", "").unwrap();
    let k2 = derive_public_key(PHRASE_A, "en", "").unwrap();
    assert_eq!(k1, k2);
}

#[test]
fn derive_depends_on_phrase() {
    let k1 = derive_public_key(PHRASE_A, "en", "").unwrap();
    let k2 = derive_public_key(PHRASE_B, "en", "").unwrap();
    assert_ne!(k1, k2);
    assert_ne!(k1, PHRASE_A);
}

#[test]
fn derive_depends_on_passphrase() {
    let empty = derive_public_key(PHRASE_A, "en", "").unwrap();
    let other = derive_public_key(PHRASE_A, "en", "TREZOR").unwrap();
    assert_ne!(empty, other);
}

#[test]
fn derive_rejects_invalid_phrase() {
    let r = derive_public_key("this is not a mnemonic phrase at all", "en", "");
    assert_eq!(r, Err(Error::InvalidMnemonic));
    let r = derive_public_key("abandon abandon abandon", "en", "");
    assert_eq!(r, Err(Error::InvalidMnemonic));
}

#[test]
fn derive_rejects_wrong_checksum() {
    let r = derive_public_key(
        "abandon abandon abandon abandon abandon abandon abandon abandon abandon abandon abandon abandon",
        "en",
        "",
    );
    assert_eq!(r, Err(Error::InvalidMnemonic));
}

#[test]
fn derived_key_is_well_formed() {
    let key = derive_public_key(PHRASE_A, "en", "").unwrap();
    assert!(!key.is_empty());
    assert!(key.len() <= 44);
    assert!(key.chars().all(|c| c.is_ascii_alphanumeric()));
}

#[test]
fn generate_supported_word_counts() {
    for count in [12, 15, 18, 21, 24] {
        let phrase = generate_mnemonic_phrase(count, "en").unwrap();
        assert_eq!(phrase.split_whitespace().count(), count);
    }
}

#[test]
fn generate_unsupported_word_count() {
    for count in [0, 1, 11, 13, 16, 23, 25, 100] {
        let r = generate_mnemonic_phrase(count, "en");
        assert_eq!(r, Err(Error::UnsupportedWordCount));
    }
}

#[test]
fn generated_phrase_is_accepted_by_derive() {
    for count in [12, 15, 18, 21, 24] {
        let phrase = generate_mnemonic_phrase(count, "en").unwrap();
        let key = derive_public_key(&phrase, "en", "").unwrap();
        assert!(!key.is_empty());
    }
}

#[test]
fn generate_draws_fresh_phrases() {
    let p1 = generate_mnemonic_phrase(12, "en").unwrap();
    let p2 = generate_mnemonic_phrase(12, "en").unwrap();
    assert_ne!(p1, p2);
}

#[test]
fn unknown_language_code_falls_back_to_english() {
    let key_en = derive_public_key(PHRASE_A, "en", "").unwrap();
    let key_other = derive_public_key(PHRASE_A, "xx", "").unwrap();
    assert_eq!(key_en, key_other);
}
