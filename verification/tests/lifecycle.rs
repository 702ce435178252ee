use solana_wallet::derivation::generate_mnemonic_phrase;
use solana_wallet::errors::Error;
use solana_wallet::manager::confirm_notification;
use solana_wallet::manager::LifecycleManager;

const PHRASE_A: &str = "abandon abandon abandon abandon abandon abandon abandon abandon abandon abandon abandon about";
const PHRASE_B: &str = "legal winner thank year wave sausage worth useful legal winner thank yellow";
const PHRASE_C: &str = "zoo zoo zoo zoo zoo zoo zoo zoo zoo zoo zoo wrong";

fn owned(s: &str) -> String {
    s.to_owned()
}

#[test]
fn import_lists_and_exports() {
    let mut m = LifecycleManager::new();
    let key = m
        .import_mnemonic(&owned(PHRASE_A), &owned("en"), None, 11)
        .unwrap();

    let records = m.fetch_mnemonic_metadatas();
    assert_eq!(records.len(), 1);
    assert_eq!(records[0].public_key, key);
    assert_eq!(records[0].language_code, "en");
    assert_eq!(records[0].imported_at, 11);

    let exported = m.export_mnemonic(&key).unwrap();
    assert_eq!(exported, PHRASE_A);
}

#[test]
fn import_invalid_phrase_leaves_no_trace() {
    let mut m = LifecycleManager::new();
    let r = m.import_mnemonic(&owned("not a phrase"), &owned("en"), None, 1);
    assert_eq!(r, Err(Error::InvalidMnemonic));
    assert!(m.fetch_mnemonic_metadatas().is_empty());
}

#[test]
fn reimport_is_rejected_and_state_kept() {
    let mut m = LifecycleManager::new();
    let key = m
        .import_mnemonic(&owned(PHRASE_A), &owned("en"), None, 5)
        .unwrap();

    let second = m.import_mnemonic(&owned(PHRASE_A), &owned("en"), None, 9);
    assert_eq!(second, Err(Error::DuplicateIdentity));

    let records = m.fetch_mnemonic_metadatas();
    assert_eq!(records.len(), 1);
    assert_eq!(records[0].public_key, key);
    assert_eq!(records[0].imported_at, 5);
    assert_eq!(m.export_mnemonic(&key).unwrap(), PHRASE_A);
}

#[test]
fn same_phrase_other_passphrase_is_another_identity() {
    let mut m = LifecycleManager::new();
    let k1 = m
        .import_mnemonic(&owned(PHRASE_A), &owned("en"), None, 1)
        .unwrap();
    let k2 = m
        .import_mnemonic(&owned(PHRASE_A), &owned("en"), Some(owned("TREZOR")), 2)
        .unwrap();
    assert_ne!(k1, k2);
    assert_eq!(m.fetch_mnemonic_metadatas().len(), 2);
}

#[test]
fn absent_passphrase_means_empty_passphrase() {
    let mut m = LifecycleManager::new();
    let _k1 = m
        .import_mnemonic(&owned(PHRASE_A), &owned("en"), None, 1)
        .unwrap();
    let r = m.import_mnemonic(&owned(PHRASE_A), &owned("en"), Some(owned("")), 2);
    assert_eq!(r, Err(Error::DuplicateIdentity));
}

#[test]
fn delete_is_idempotent() {
    let mut m = LifecycleManager::new();
    let key = m
        .import_mnemonic(&owned(PHRASE_A), &owned("en"), None, 3)
        .unwrap();

    assert_eq!(m.delete_mnemonic(&key), Ok(()));
    assert_eq!(m.delete_mnemonic(&key), Ok(()));
    assert!(m.fetch_mnemonic_metadatas().is_empty());
    assert_eq!(m.export_mnemonic(&key), Err(Error::IdentityNotFound));
}

#[test]
fn delete_of_never_imported_key_succeeds() {
    let mut m = LifecycleManager::new();
    assert_eq!(m.delete_mnemonic(&owned("11111111111111111111111111111111")), Ok(()));
    assert!(m.fetch_mnemonic_metadatas().is_empty());
}

#[test]
fn delete_touches_only_its_own_identity() {
    let mut m = LifecycleManager::new();
    let k1 = m
        .import_mnemonic(&owned(PHRASE_A), &owned("en"), None, 1)
        .unwrap();
    let k2 = m
        .import_mnemonic(&owned(PHRASE_B), &owned("en"), None, 2)
        .unwrap();

    assert_eq!(m.delete_mnemonic(&k1), Ok(()));
    let records = m.fetch_mnemonic_metadatas();
    assert_eq!(records.len(), 1);
    assert_eq!(records[0].public_key, k2);
    assert_eq!(m.export_mnemonic(&k2).unwrap(), PHRASE_B);
}

#[test]
fn export_of_unknown_key_fails() {
    let m = LifecycleManager::new();
    let r = m.export_mnemonic(&owned("11111111111111111111111111111111"));
    assert_eq!(r, Err(Error::IdentityNotFound));
}

#[test]
fn listing_is_ordered_by_import_time() {
    let mut m = LifecycleManager::new();
    let k1 = m
        .import_mnemonic(&owned(PHRASE_A), &owned("en"), None, 10)
        .unwrap();
    let k2 = m
        .import_mnemonic(&owned(PHRASE_B), &owned("en"), None, 20)
        .unwrap();
    let k3 = m
        .import_mnemonic(&owned(PHRASE_C), &owned("en"), None, 30)
        .unwrap();

    let records = m.fetch_mnemonic_metadatas();
    assert_eq!(records.len(), 3);
    assert_eq!(records[0].public_key, k1);
    assert_eq!(records[1].public_key, k2);
    assert_eq!(records[2].public_key, k3);
    assert!(records[0].imported_at <= records[1].imported_at);
    assert!(records[1].imported_at <= records[2].imported_at);
}

#[test]
fn assigned_time_never_turns_back() {
    let mut m = LifecycleManager::new();
    m.import_mnemonic(&owned(PHRASE_A), &owned("en"), None, 100)
        .unwrap();
    m.import_mnemonic(&owned(PHRASE_B), &owned("en"), None, 40)
        .unwrap();

    let records = m.fetch_mnemonic_metadatas();
    assert_eq!(records[0].imported_at, 100);
    assert_eq!(records[1].imported_at, 100);
}

#[test]
fn distinct_imports_all_present() {
    let mut m = LifecycleManager::new();
    let mut keys: Vec<String> = Vec::new();
    for (i, phrase) in [PHRASE_A, PHRASE_B, PHRASE_C].into_iter().enumerate() {
        let key = m
            .import_mnemonic(&owned(phrase), &owned("en"), None, i as u64)
            .unwrap();
        keys.push(key);
    }
    assert_ne!(keys[0], keys[1]);
    assert_ne!(keys[0], keys[2]);
    assert_ne!(keys[1], keys[2]);

    let records = m.fetch_mnemonic_metadatas();
    assert_eq!(records.len(), 3);
    for key in &keys {
        assert_eq!(
            records.iter().filter(|r| r.public_key == *key).count(),
            1
        );
    }
}

#[test]
fn full_scenario_generate_import_export_delete() {
    let phrase = generate_mnemonic_phrase(12, "en").unwrap();
    assert_eq!(phrase.split_whitespace().count(), 12);

    let mut m = LifecycleManager::new();
    let key = m
        .import_mnemonic(&phrase, &owned("en"), Some(owned("")), 7)
        .unwrap();
    assert!(!key.is_empty());
    assert!(key.len() <= 44);

    let records = m.fetch_mnemonic_metadatas();
    assert_eq!(records.len(), 1);
    assert_eq!(records[0].public_key, key);
    assert_eq!(records[0].language_code, "en");

    assert_eq!(m.export_mnemonic(&key).unwrap(), phrase);

    assert_eq!(m.delete_mnemonic(&key), Ok(()));
    assert!(m.fetch_mnemonic_metadatas().is_empty());
    assert_eq!(m.export_mnemonic(&key), Err(Error::IdentityNotFound));
}

#[test]
fn notification_outcome_decides_the_report() {
    let delivered = confirm_notification(true, owned("key"));
    assert_eq!(delivered, Ok(owned("key")));
    let failed = confirm_notification(false, owned("key"));
    assert_eq!(failed, Err(Error::NotificationFailed));
}

#[test]
fn error_kinds_carry_messages() {
    let kinds = [
        Error::InvalidMnemonic,
        Error::UnsupportedWordCount,
        Error::DuplicateIdentity,
        Error::IdentityNotFound,
        Error::SecretNotFound,
        Error::StoreUnavailable,
        Error::NotificationFailed,
    ];
    for kind in kinds {
        assert!(!kind.message().is_empty());
    }
    assert_eq!(
        Error::DuplicateIdentity.message(),
        "an identity with this public key already exists"
    );
    assert_eq!(
        Error::IdentityNotFound.message(),
        "no identity with this public key exists"
    );
}
