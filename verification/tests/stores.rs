use solana_wallet::errors::Error;
use solana_wallet::metadata::MetadataStore;
use solana_wallet::vault::SecretKind;
use solana_wallet::vault::SecretVault;

fn owned(s: &str) -> String {
    s.to_owned()
}

#[test]
fn metadata_insert_rejects_duplicate_key() {
    let mut store = MetadataStore::new();
    assert_eq!(store.insert(owned("key-1"), owned("en"), 1), Ok(()));
    assert_eq!(
        store.insert(owned("key-1"), owned("fr"), 2),
        Err(Error::DuplicateIdentity)
    );
    assert_eq!(store.list().len(), 1);
}

#[test]
fn metadata_delete_absent_key_is_no_error() {
    let mut store = MetadataStore::new();
    assert_eq!(store.delete(&owned("missing")), Ok(()));
    assert_eq!(store.insert(owned("key-1"), owned("en"), 1), Ok(()));
    assert_eq!(store.delete(&owned("key-1")), Ok(()));
    assert_eq!(store.delete(&owned("key-1")), Ok(()));
    assert!(store.list().is_empty());
}

#[test]
fn metadata_assigns_monotonic_timestamps() {
    let mut store = MetadataStore::new();
    store.insert(owned("key-1"), owned("en"), 50).unwrap();
    store.insert(owned("key-2"), owned("en"), 20).unwrap();
    store.insert(owned("key-3"), owned("en"), 60).unwrap();

    let records = store.list();
    assert_eq!(records[0].imported_at, 50);
    assert_eq!(records[1].imported_at, 50);
    assert_eq!(records[2].imported_at, 60);
}

#[test]
fn metadata_contains_tracks_inserts() {
    let mut store = MetadataStore::new();
    assert!(!store.contains(&owned("key-1")));
    store.insert(owned("key-1"), owned("en"), 1).unwrap();
    assert!(store.contains(&owned("key-1")));
    store.delete(&owned("key-1")).unwrap();
    assert!(!store.contains(&owned("key-1")));
}

#[test]
fn vault_get_of_absent_secret_fails() {
    let vault = SecretVault::new();
    assert_eq!(
        vault.get_secret(&owned("key-1"), SecretKind::SeedPassphrase),
        Err(Error::SecretNotFound)
    );
}

#[test]
fn vault_set_then_get_both_kinds() {
    let mut vault = SecretVault::new();
    vault.set_secret(&owned("key-1"), SecretKind::SeedPassphrase, owned("pass"));
    vault.set_secret(&owned("key-1"), SecretKind::MnemonicPhrase, owned("words"));

    assert_eq!(
        vault.get_secret(&owned("key-1"), SecretKind::SeedPassphrase),
        Ok(owned("pass"))
    );
    assert_eq!(
        vault.get_secret(&owned("key-1"), SecretKind::MnemonicPhrase),
        Ok(owned("words"))
    );
}

#[test]
fn vault_set_overwrites() {
    let mut vault = SecretVault::new();
    vault.set_secret(&owned("key-1"), SecretKind::SeedPassphrase, owned("old"));
    vault.set_secret(&owned("key-1"), SecretKind::SeedPassphrase, owned("new"));
    assert_eq!(
        vault.get_secret(&owned("key-1"), SecretKind::SeedPassphrase),
        Ok(owned("new"))
    );
}

#[test]
fn vault_delete_distinguishes_absence() {
    let mut vault = SecretVault::new();
    vault.set_secret(&owned("key-1"), SecretKind::SeedPassphrase, owned("pass"));

    assert_eq!(
        vault.delete_secret(&owned("key-1"), SecretKind::SeedPassphrase),
        Ok(())
    );
    assert_eq!(
        vault.delete_secret(&owned("key-1"), SecretKind::SeedPassphrase),
        Err(Error::SecretNotFound)
    );
    assert_eq!(
        vault.delete_secret(&owned("key-1"), SecretKind::MnemonicPhrase),
        Err(Error::SecretNotFound)
    );
}

#[test]
fn vault_keys_are_per_identity_and_kind() {
    let mut vault = SecretVault::new();
    vault.set_secret(&owned("key-1"), SecretKind::SeedPassphrase, owned("a"));
    vault.set_secret(&owned("key-2"), SecretKind::SeedPassphrase, owned("b"));

    assert_eq!(
        vault.get_secret(&owned("key-1"), SecretKind::SeedPassphrase),
        Ok(owned("a"))
    );
    assert_eq!(
        vault.get_secret(&owned("key-2"), SecretKind::SeedPassphrase),
        Ok(owned("b"))
    );
    assert_eq!(
        vault.get_secret(&owned("key-1"), SecretKind::MnemonicPhrase),
        Err(Error::SecretNotFound)
    );
}
