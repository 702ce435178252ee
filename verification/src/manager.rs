//! The credential lifecycle manager: the one component that touches both
//! stores. It orchestrates import, export, deletion and listing so that the
//! metadata record and the two secret records of an identity are created and
//! destroyed as one logical unit, in a fixed order — metadata first on
//! import, metadata first on delete — with the tolerance rules that make
//! delete safe to retry against a half-written identity.

use vstd::prelude::*;

use crate::derivation::derive_public_key;
use crate::derivation::derived_key_of;
use crate::derivation::phrase_valid;
use crate::errors::Error;
use crate::metadata::assigned_time;
use crate::metadata::has_key;
use crate::metadata::key_count;
use crate::metadata::lemma_has_key_push;
use crate::metadata::lemma_key_count_push;
use crate::metadata::lemma_key_count_zero;
use crate::metadata::lemma_remove_key_keeps;
use crate::metadata::remove_key;
use crate::metadata::time_sorted;
use crate::metadata::unique_keys;
use crate::metadata::MetadataRecord;
use crate::metadata::MetadataStore;
use crate::metadata::RecordModel;
use crate::vault::SecretKind;
use crate::vault::SecretVault;

verus! {

/// The joint state of the two stores: the metadata records in import order,
/// and the secret map of the vault.
pub ghost struct StateModel {
    pub records: Seq<RecordModel>,
    pub secrets: Map<(Seq<char>, SecretKind), Seq<char>>,
}

/// The structural invariant of the metadata side: keys unique, records in
/// timestamp order.
pub open spec fn state_wf(s: StateModel) -> bool {
    unique_keys(s.records) && time_sorted(s.records)
}

/// Cross-store consistency: every metadata record owns both of its secrets,
/// and every secret belongs to a present metadata record. The three records
/// of an identity form one logical unit.
pub open spec fn consistent(s: StateModel) -> bool {
    &&& forall|k: Seq<char>|
        #[trigger] has_key(s.records, k) ==> s.secrets.contains_key((k, SecretKind::SeedPassphrase))
            && s.secrets.contains_key((k, SecretKind::MnemonicPhrase))
    &&& forall|p: (Seq<char>, SecretKind)|
        #[trigger] s.secrets.contains_key(p) ==> has_key(s.records, p.0)
}

/// The passphrase an import uses: the given one, or empty when absent. An
/// empty passphrase is a valid, distinct derivation input, not an error.
pub open spec fn passphrase_view(password: Option<String>) -> Seq<char> {
    match password {
        Some(p) => p@,
        None => Seq::empty(),
    }
}

/// When an import goes through: the phrase is valid under the wordlist and
/// the derived key is not yet present.
pub open spec fn import_accepted(
    s: StateModel,
    phrase: Seq<char>,
    language_code: Seq<char>,
    passphrase: Seq<char>,
) -> bool {
    phrase_valid(language_code, phrase) && !has_key(
        s.records,
        derived_key_of(phrase, passphrase),
    )
}

/// The joint state after an accepted import when the wall clock reads `now`:
/// one new metadata record, stamped by the store, and the two secrets of the
/// new identity.
pub open spec fn import_post(
    s: StateModel,
    phrase: Seq<char>,
    language_code: Seq<char>,
    passphrase: Seq<char>,
    now: u64,
) -> StateModel {
    let key = derived_key_of(phrase, passphrase);
    StateModel {
        records: s.records.push(
            RecordModel {
                public_key: key,
                language_code: language_code,
                imported_at: assigned_time(s.records, now),
            },
        ),
        secrets: s.secrets.insert((key, SecretKind::SeedPassphrase), passphrase).insert(
            (key, SecretKind::MnemonicPhrase),
            phrase,
        ),
    }
}

/// The joint state after a delete: the metadata record and both secrets of
/// the key are gone, whether or not any of the three was present.
pub open spec fn delete_post(s: StateModel, key: Seq<char>) -> StateModel {
    StateModel {
        records: remove_key(s.records, key),
        secrets: s.secrets.remove((key, SecretKind::SeedPassphrase)).remove(
            (key, SecretKind::MnemonicPhrase),
        ),
    }
}

/// The lifecycle manager, holding the two stores it keeps consistent.
pub struct LifecycleManager {
    metadata: MetadataStore,
    vault: SecretVault,
}

impl View for LifecycleManager {
    type V = StateModel;

    closed spec fn view(&self) -> StateModel {
        StateModel { records: self.metadata@, secrets: self.vault@ }
    }
}

impl LifecycleManager {
    /// The representation invariant of both stores.
    pub closed spec fn wf(&self) -> bool {
        self.metadata.wf() && self.vault.wf()
    }

    /// A manager over two fresh, empty stores.
    pub fn new() -> (m: LifecycleManager)
        ensures
            m.wf(),
            state_wf(m@),
            consistent(m@),
            m@.records == Seq::<RecordModel>::empty(),
            m@.secrets == Map::<(Seq<char>, SecretKind), Seq<char>>::empty(),
    {
        LifecycleManager { metadata: MetadataStore::new(), vault: SecretVault::new() }
    }

    /// Imports an identity: derives the key, inserts the metadata record,
    /// then writes the seed passphrase and the mnemonic phrase secrets, in
    /// that order. A derivation failure or a duplicate key aborts before any
    /// secret is written, leaving the state unchanged.
    pub fn import_mnemonic(
        &mut self,
        phrase: &String,
        language_code: &String,
        password: Option<String>,
        now: u64,
    ) -> (r: Result<String, Error>)
        requires
            old(self).wf(),
        ensures
            final(self).wf(),
            state_wf(final(self)@),
            !phrase_valid(language_code@, phrase@) ==> r == Err::<String, Error>(
                Error::InvalidMnemonic,
            ) && final(self)@ == old(self)@,
            phrase_valid(language_code@, phrase@) && has_key(
                old(self)@.records,
                derived_key_of(phrase@, passphrase_view(password)),
            ) ==> r == Err::<String, Error>(Error::DuplicateIdentity) && final(self)@ == old(self)@,
            import_accepted(old(self)@, phrase@, language_code@, passphrase_view(password)) ==> r
                is Ok && r->Ok_0@ == derived_key_of(phrase@, passphrase_view(password))
                && final(self)@ == import_post(
                old(self)@,
                phrase@,
                language_code@,
                passphrase_view(password),
                now,
            ),
            consistent(old(self)@) ==> consistent(final(self)@),
    {
        let passphrase: String = match password {
            Some(p) => p,
            None => String::new(),
        };
        let key = match derive_public_key(
            phrase.as_str(),
            language_code.as_str(),
            passphrase.as_str(),
        ) {
            Ok(k) => k,
            Err(e) => {
                return Err(e);
            },
        };
        match self.metadata.insert(key.clone(), language_code.clone(), now) {
            Ok(_) => {},
            Err(e) => {
                return Err(e);
            },
        }
        self.vault.set_secret(&key, SecretKind::SeedPassphrase, passphrase);
        self.vault.set_secret(&key, SecretKind::MnemonicPhrase, phrase.clone());
        proof {
            if consistent(old(self)@) {
                lemma_import_post_consistent(
                    old(self)@,
                    phrase@,
                    language_code@,
                    passphrase_view(password),
                    now,
                );
            }
        }
        Ok(key)
    }

    /// Destroys an identity: removes the metadata record (no error if it is
    /// absent), then both secrets, tolerating `SecretNotFound` on each so a
    /// delete is safe to retry against an already-orphaned or half-deleted
    /// identity.
    pub fn delete_mnemonic(&mut self, public_key: &String) -> (r: Result<(), Error>)
        requires
            old(self).wf(),
        ensures
            final(self).wf(),
            state_wf(final(self)@),
            r == Ok::<(), Error>(()),
            final(self)@ == delete_post(old(self)@, public_key@),
            consistent(old(self)@) ==> consistent(final(self)@),
    {
        match self.metadata.delete(public_key) {
            Ok(_) => {},
            Err(e) => {
                return Err(e);
            },
        }
        match tolerate_missing_secret(self.vault.delete_secret(public_key, SecretKind::SeedPassphrase)) {
            Ok(_) => {},
            Err(e) => {
                return Err(e);
            },
        }
        match tolerate_missing_secret(self.vault.delete_secret(public_key, SecretKind::MnemonicPhrase)) {
            Ok(_) => {},
            Err(e) => {
                return Err(e);
            },
        }
        proof {
            lemma_remove_key_keeps(old(self)@.records, public_key@);
            if consistent(old(self)@) {
                lemma_delete_post_consistent(old(self)@, public_key@);
            }
        }
        Ok(())
    }

    /// Reads back the mnemonic phrase of an imported identity. An unknown
    /// public key fails with `IdentityNotFound` — checked against the
    /// metadata store first, so no secret is read for a key the store does
    /// not recognise; a known key whose secret is missing fails with
    /// `SecretNotFound`, which is exactly how an orphaned record shows
    /// itself.
    pub fn export_mnemonic(&self, public_key: &String) -> (r: Result<String, Error>)
        requires
            self.wf(),
        ensures
            !has_key(self@.records, public_key@) ==> r == Err::<String, Error>(
                Error::IdentityNotFound,
            ),
            has_key(self@.records, public_key@) && !self@.secrets.contains_key(
                (public_key@, SecretKind::MnemonicPhrase),
            ) ==> r == Err::<String, Error>(Error::SecretNotFound),
            has_key(self@.records, public_key@) && self@.secrets.contains_key(
                (public_key@, SecretKind::MnemonicPhrase),
            ) ==> r is Ok && r->Ok_0@ == self@.secrets[(public_key@, SecretKind::MnemonicPhrase)],
    {
        if !self.metadata.contains(public_key) {
            return Err(Error::IdentityNotFound);
        }
        self.vault.get_secret(public_key, SecretKind::MnemonicPhrase)
    }

    /// Lists the metadata of every imported identity, ordered by import
    /// time. Delegates to the metadata store alone and never touches the
    /// vault, so listing stays available when the secret backend is not.
    pub fn fetch_mnemonic_metadatas(&self) -> (r: Vec<MetadataRecord>)
        ensures
            r@.map_values(|m: MetadataRecord| m@) == self@.records,
    {
        self.metadata.list()
    }
}

/// The tolerance decision of a delete's secret steps: a missing secret is
/// already clean — the delete must be safe to retry against a partial state
/// the caller cannot know about — while any other vault failure aborts.
pub fn tolerate_missing_secret(outcome: Result<(), Error>) -> (r: Result<(), Error>)
    ensures
        outcome is Ok ==> r == Ok::<(), Error>(()),
        outcome == Err::<(), Error>(Error::SecretNotFound) ==> r == Ok::<(), Error>(()),
        outcome is Err && outcome != Err::<(), Error>(Error::SecretNotFound) ==> r == outcome,
{
    match outcome {
        Ok(_) => Ok(()),
        Err(Error::SecretNotFound) => Ok(()),
        Err(e) => Err(e),
    }
}

/// The decision of the notification step: an import or delete is already
/// committed when its event goes out, so a failed delivery does not roll it
/// back — the operation reports `NotificationFailed` and the caller treats
/// the work as committed but unconfirmed.
pub fn confirm_notification(delivered: bool, public_key: String) -> (r: Result<String, Error>)
    ensures
        delivered ==> r is Ok && r->Ok_0 == public_key,
        !delivered ==> r == Err::<String, Error>(Error::NotificationFailed),
{
    if delivered {
        Ok(public_key)
    } else {
        Err(Error::NotificationFailed)
    }
}

/// Law: an accepted import keeps the stores consistent — the new identity
/// enters as a whole unit.
pub proof fn lemma_import_post_consistent(
    s: StateModel,
    phrase: Seq<char>,
    language_code: Seq<char>,
    passphrase: Seq<char>,
    now: u64,
)
    requires
        consistent(s),
    ensures
        consistent(import_post(s, phrase, language_code, passphrase, now)),
{
    let key = derived_key_of(phrase, passphrase);
    let post = import_post(s, phrase, language_code, passphrase, now);
    let record = post.records.last();
    assert forall|k: Seq<char>| #[trigger] has_key(post.records, k) implies post.secrets.contains_key(
        (k, SecretKind::SeedPassphrase),
    ) && post.secrets.contains_key((k, SecretKind::MnemonicPhrase)) by {
        lemma_has_key_push(s.records, record, k);
    }
    assert forall|p: (Seq<char>, SecretKind)| #[trigger] post.secrets.contains_key(p) implies
        has_key(post.records, p.0) by {
        if p.0 == key {
            assert(post.records[s.records.len() as int].public_key == key);
        } else {
            assert(s.secrets.contains_key(p));
            lemma_has_key_push(s.records, record, p.0);
        }
    }
}

/// Law: a delete keeps the stores consistent — whatever identity it touches
/// leaves as a whole unit.
pub proof fn lemma_delete_post_consistent(s: StateModel, key: Seq<char>)
    requires
        consistent(s),
    ensures
        consistent(delete_post(s, key)),
{
    let post = delete_post(s, key);
    lemma_remove_key_keeps(s.records, key);
    assert forall|k: Seq<char>| #[trigger] has_key(post.records, k) implies post.secrets.contains_key(
        (k, SecretKind::SeedPassphrase),
    ) && post.secrets.contains_key((k, SecretKind::MnemonicPhrase)) by {
        let w = choose|w: int| 0 <= w < post.records.len() && post.records[w].public_key == k;
        assert(has_key(s.records, post.records[w].public_key));
        assert(k != key);
    }
    assert forall|p: (Seq<char>, SecretKind)| #[trigger] post.secrets.contains_key(p) implies
        has_key(post.records, p.0) by {
        assert(s.secrets.contains_key(p));
        if p.0 == key {
            match p.1 {
                SecretKind::SeedPassphrase => {
                    assert(!post.secrets.contains_key(p));
                },
                SecretKind::MnemonicPhrase => {
                    assert(!post.secrets.contains_key(p));
                },
            }
        } else {
            let w = choose|w: int| 0 <= w < s.records.len() && s.records[w].public_key == p.0;
            assert(has_key(remove_key(s.records, key), s.records[w].public_key));
        }
    }
}

/// Law: on consistent stores, a listed identity always exports. The
/// `SecretNotFound` branch of export can only strike an orphaned state — one
/// that a crash between the two stores left behind, never one that the
/// lifecycle operations produced.
pub proof fn lemma_consistent_export_succeeds(s: StateModel, key: Seq<char>)
    requires
        consistent(s),
        has_key(s.records, key),
    ensures
        s.secrets.contains_key((key, SecretKind::MnemonicPhrase)),
        s.secrets.contains_key((key, SecretKind::SeedPassphrase)),
{
}

/// Law: importing the same secret material twice is rejected. After an
/// accepted import, the same (phrase, language, passphrase) derives the same
/// key, so the second import is no longer accepted: it reports
/// `DuplicateIdentity` and leaves the state exactly as the first import left
/// it.
pub proof fn lemma_reimport_rejected(
    s: StateModel,
    phrase: Seq<char>,
    language_code: Seq<char>,
    passphrase: Seq<char>,
    now: u64,
)
    requires
        import_accepted(s, phrase, language_code, passphrase),
    ensures
        !import_accepted(
            import_post(s, phrase, language_code, passphrase, now),
            phrase,
            language_code,
            passphrase,
        ),
        has_key(
            import_post(s, phrase, language_code, passphrase, now).records,
            derived_key_of(phrase, passphrase),
        ),
{
    let post = import_post(s, phrase, language_code, passphrase, now);
    assert(post.records[s.records.len() as int].public_key == derived_key_of(phrase, passphrase));
}

/// Law: an accepted import of key K establishes the identity whole — the
/// metadata lists K exactly once, and both secrets are retrievable: the seed
/// passphrase as given, and the mnemonic phrase exactly as imported, which
/// is what an export of K returns.
pub proof fn lemma_import_establishes_identity(
    s: StateModel,
    phrase: Seq<char>,
    language_code: Seq<char>,
    passphrase: Seq<char>,
    now: u64,
)
    requires
        import_accepted(s, phrase, language_code, passphrase),
    ensures
        ({
            let post = import_post(s, phrase, language_code, passphrase, now);
            let key = derived_key_of(phrase, passphrase);
            &&& has_key(post.records, key)
            &&& key_count(post.records, key) == 1
            &&& post.secrets.contains_key((key, SecretKind::SeedPassphrase))
            &&& post.secrets[(key, SecretKind::SeedPassphrase)] == passphrase
            &&& post.secrets.contains_key((key, SecretKind::MnemonicPhrase))
            &&& post.secrets[(key, SecretKind::MnemonicPhrase)] == phrase
        }),
{
    let post = import_post(s, phrase, language_code, passphrase, now);
    let key = derived_key_of(phrase, passphrase);
    let record = post.records.last();
    assert(post.records[s.records.len() as int].public_key == key);
    lemma_key_count_zero(s.records, key);
    lemma_key_count_push(s.records, record, key);
}

/// Law: delete is idempotent and final. After a delete of key K — from any
/// state, imported or never imported — K is listed no more, both of its
/// secrets are gone (so an export of K reports `IdentityNotFound`), and a
/// second delete reports success again while changing nothing.
pub proof fn lemma_delete_idempotent(s: StateModel, key: Seq<char>)
    ensures
        !has_key(delete_post(s, key).records, key),
        !delete_post(s, key).secrets.contains_key((key, SecretKind::SeedPassphrase)),
        !delete_post(s, key).secrets.contains_key((key, SecretKind::MnemonicPhrase)),
        delete_post(delete_post(s, key), key) == delete_post(s, key),
{
    let post = delete_post(s, key);
    lemma_remove_key_keeps(s.records, key);
    lemma_key_count_zero(post.records, key);
    assert(delete_post(post, key).secrets =~= post.secrets);
    assert(delete_post(post, key) == post);
}

/// Law: deleting a never-imported key is a harmless success. When neither
/// the metadata record nor either secret exists, the delete reports success
/// and the state is exactly what it was.
pub proof fn lemma_delete_unknown_is_noop(s: StateModel, key: Seq<char>)
    requires
        !has_key(s.records, key),
        !s.secrets.contains_key((key, SecretKind::SeedPassphrase)),
        !s.secrets.contains_key((key, SecretKind::MnemonicPhrase)),
    ensures
        delete_post(s, key) == s,
{
    lemma_key_count_zero(s.records, key);
    assert(delete_post(s, key).secrets =~= s.secrets);
}

/// Law: a valid phrase is never rejected as a mnemonic — an import of it
/// either goes through or reports the duplicate, so a freshly generated
/// phrase (always valid under its wordlist) is always importable while its
/// key is unused.
pub proof fn lemma_valid_phrase_accepted(
    s: StateModel,
    phrase: Seq<char>,
    language_code: Seq<char>,
    passphrase: Seq<char>,
)
    requires
        phrase_valid(language_code, phrase),
        !has_key(s.records, derived_key_of(phrase, passphrase)),
    ensures
        import_accepted(s, phrase, language_code, passphrase),
{
}

/// Law: no lost updates. Two imports whose derived keys differ both land:
/// after the first, the second is still accepted, and afterwards each key is
/// listed exactly once and every earlier record is still present.
pub proof fn lemma_distinct_imports_both_present(
    s: StateModel,
    phrase1: Seq<char>,
    language1: Seq<char>,
    passphrase1: Seq<char>,
    now1: u64,
    phrase2: Seq<char>,
    language2: Seq<char>,
    passphrase2: Seq<char>,
    now2: u64,
)
    requires
        import_accepted(s, phrase1, language1, passphrase1),
        phrase_valid(language2, phrase2),
        !has_key(s.records, derived_key_of(phrase2, passphrase2)),
        derived_key_of(phrase1, passphrase1) != derived_key_of(phrase2, passphrase2),
    ensures
        import_accepted(
            import_post(s, phrase1, language1, passphrase1, now1),
            phrase2,
            language2,
            passphrase2,
        ),
        ({
            let after = import_post(
                import_post(s, phrase1, language1, passphrase1, now1),
                phrase2,
                language2,
                passphrase2,
                now2,
            );
            &&& key_count(after.records, derived_key_of(phrase1, passphrase1)) == 1
            &&& key_count(after.records, derived_key_of(phrase2, passphrase2)) == 1
            &&& after.records.len() == s.records.len() + 2
            &&& forall|i: int|
                0 <= i < s.records.len() ==> after.records[i] == s.records[i]
        }),
{
    let key1 = derived_key_of(phrase1, passphrase1);
    let key2 = derived_key_of(phrase2, passphrase2);
    let s1 = import_post(s, phrase1, language1, passphrase1, now1);
    let record1 = s1.records.last();
    lemma_has_key_push(s.records, record1, key2);
    let s2 = import_post(s1, phrase2, language2, passphrase2, now2);
    let record2 = s2.records.last();
    lemma_key_count_zero(s.records, key1);
    lemma_key_count_zero(s.records, key2);
    lemma_key_count_push(s.records, record1, key1);
    lemma_key_count_push(s.records, record1, key2);
    lemma_key_count_push(s1.records, record2, key1);
    lemma_key_count_push(s1.records, record2, key2);
}

} // verus!
