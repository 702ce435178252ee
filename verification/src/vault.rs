//! The secret vault: per-identity, per-kind secret storage. A value is keyed
//! by the pair (public key, secret kind); the vault offers set, get and
//! delete by that key and nothing else — no enumeration, so identity listing
//! never needs it.

use vstd::prelude::*;

use crate::errors::Error;

verus! {

/// The two secret kinds an identity owns: the seed passphrase and the full
/// mnemonic phrase. Both are written at import and destroyed at delete.
#[derive(Debug, Clone, Copy, PartialEq, Eq, Structural)]
pub enum SecretKind {
    SeedPassphrase,
    MnemonicPhrase,
}

/// One stored secret value with its composite key.
struct SecretEntry {
    public_key: String,
    kind: SecretKind,
    value: String,
}

/// The mathematical image of one stored secret.
pub ghost struct SecretEntryModel {
    pub public_key: Seq<char>,
    pub kind: SecretKind,
    pub value: Seq<char>,
}

impl View for SecretEntry {
    type V = SecretEntryModel;

    closed spec fn view(&self) -> SecretEntryModel {
        SecretEntryModel { public_key: self.public_key@, kind: self.kind, value: self.value@ }
    }
}

/// The composite key of one stored secret.
pub open spec fn entry_key(e: SecretEntryModel) -> (Seq<char>, SecretKind) {
    (e.public_key, e.kind)
}

/// The map that a sequence of stored secrets represents: later entries win,
/// though the vault never keeps two entries under one key.
pub open spec fn entries_map(entries: Seq<SecretEntryModel>) -> Map<
    (Seq<char>, SecretKind),
    Seq<char>,
>
    decreases entries.len(),
{
    if entries.len() == 0 {
        Map::empty()
    } else {
        entries_map(entries.drop_last()).insert(entry_key(entries.last()), entries.last().value)
    }
}

/// No two stored secrets share a composite key.
pub open spec fn unique_entry_keys(entries: Seq<SecretEntryModel>) -> bool {
    forall|i: int, j: int|
        0 <= i < j < entries.len() ==> entry_key(entries[i]) != entry_key(entries[j])
}

/// The vault. Viewed as a finite map from (public key, kind) to the secret
/// value.
pub struct SecretVault {
    entries: Vec<SecretEntry>,
}

impl View for SecretVault {
    type V = Map<(Seq<char>, SecretKind), Seq<char>>;

    closed spec fn view(&self) -> Map<(Seq<char>, SecretKind), Seq<char>> {
        entries_map(self.entries@.map_values(|e: SecretEntry| e@))
    }
}

impl SecretVault {
    /// The vault's representation invariant.
    pub closed spec fn wf(&self) -> bool {
        unique_entry_keys(self.entries@.map_values(|e: SecretEntry| e@))
    }

    spec fn models(&self) -> Seq<SecretEntryModel> {
        self.entries@.map_values(|e: SecretEntry| e@)
    }

    /// An empty vault.
    pub fn new() -> (v: SecretVault)
        ensures
            v@ == Map::<(Seq<char>, SecretKind), Seq<char>>::empty(),
            v.wf(),
    {
        SecretVault { entries: Vec::new() }
    }

    /// The position of the entry keyed (public_key, kind), if one is stored.
    fn find(&self, public_key: &String, kind: SecretKind) -> (r: Option<usize>)
        ensures
            match r {
                Some(i) => i < self.entries@.len() && entry_key(self.models()[i as int]) == (
                    public_key@,
                    kind,
                ),
                None => forall|j: int|
                    0 <= j < self.models().len() ==> entry_key(#[trigger] self.models()[j]) != (
                        public_key@,
                        kind,
                    ),
            },
    {
        let n = self.entries.len();
        let mut i: usize = 0;
        while i < n
            invariant
                n == self.entries.len(),
                i <= n,
                forall|j: int|
                    0 <= j < i ==> entry_key(#[trigger] self.models()[j]) != (public_key@, kind),
            decreases n - i,
        {
            if self.entries[i].public_key == *public_key && self.entries[i].kind == kind {
                assert(entry_key(self.models()[i as int]) == (public_key@, kind));
                return Some(i);
            }
            i += 1;
        }
        None
    }

    /// Reads the secret for (public_key, kind). A miss is `SecretNotFound`.
    pub fn get_secret(&self, public_key: &String, kind: SecretKind) -> (r: Result<String, Error>)
        requires
            self.wf(),
        ensures
            self@.contains_key((public_key@, kind)) ==> r is Ok && r->Ok_0@ == self@[
                (public_key@, kind)
            ],
            !self@.contains_key((public_key@, kind)) ==> r == Err::<String, Error>(
                Error::SecretNotFound,
            ),
    {
        match self.find(public_key, kind) {
            Some(i) => {
                proof {
                    lemma_entries_map_index(self.models(), i as int);
                }
                Ok(self.entries[i].value.clone())
            },
            None => {
                proof {
                    lemma_entries_map_absent(self.models(), (public_key@, kind));
                }
                Err(Error::SecretNotFound)
            },
        }
    }

    /// Writes the secret for (public_key, kind), overwriting any value that
    /// key already had.
    pub fn set_secret(&mut self, public_key: &String, kind: SecretKind, value: String)
        requires
            old(self).wf(),
        ensures
            final(self).wf(),
            final(self)@ == old(self)@.insert((public_key@, kind), value@),
    {
        let ghost before = self.models();
        let entry = SecretEntry { public_key: public_key.clone(), kind, value };
        match self.find(public_key, kind) {
            Some(i) => {
                proof {
                    lemma_entries_map_remove(before, i as int);
                    lemma_entries_map_absent(before.remove(i as int), (public_key@, kind));
                }
                let ghost removed = before.remove(i as int);
                self.entries.remove(i);
                proof {
                    assert(self.models() =~= removed);
                }
                self.entries.push(entry);
                proof {
                    assert(self.models() =~= removed.push(entry@));
                    assert(removed.push(entry@).drop_last() =~= removed);
                    assert(self@ == entries_map(removed).insert((public_key@, kind), value@));
                    assert(self@ =~= old(self)@.insert((public_key@, kind), value@));
                    lemma_unique_push(removed, entry@);
                }
            },
            None => {
                self.entries.push(entry);
                proof {
                    assert(self.models() =~= before.push(entry@));
                    assert(before.push(entry@).drop_last() =~= before);
                    lemma_unique_push(before, entry@);
                }
            },
        }
    }

    /// Destroys the secret for (public_key, kind). Deleting an absent key is
    /// an error, `SecretNotFound`, that callers retrying a partial delete can
    /// recognise and tolerate.
    pub fn delete_secret(&mut self, public_key: &String, kind: SecretKind) -> (r: Result<
        (),
        Error,
    >)
        requires
            old(self).wf(),
        ensures
            final(self).wf(),
            final(self)@ == old(self)@.remove((public_key@, kind)),
            old(self)@.contains_key((public_key@, kind)) ==> r == Ok::<(), Error>(()),
            !old(self)@.contains_key((public_key@, kind)) ==> r == Err::<(), Error>(
                Error::SecretNotFound,
            ),
    {
        let ghost before = self.models();
        match self.find(public_key, kind) {
            Some(i) => {
                proof {
                    lemma_entries_map_index(before, i as int);
                    lemma_entries_map_remove(before, i as int);
                }
                self.entries.remove(i);
                proof {
                    assert(self.models() =~= before.remove(i as int));
                }
                Ok(())
            },
            None => {
                proof {
                    lemma_entries_map_absent(before, (public_key@, kind));
                    assert(old(self)@.remove((public_key@, kind)) =~= old(self)@);
                }
                Err(Error::SecretNotFound)
            },
        }
    }
}

/// Pushing an entry whose key is fresh keeps the keys unique.
proof fn lemma_unique_push(entries: Seq<SecretEntryModel>, entry: SecretEntryModel)
    requires
        unique_entry_keys(entries),
        forall|j: int| 0 <= j < entries.len() ==> entry_key(#[trigger] entries[j]) != entry_key(entry),
    ensures
        unique_entry_keys(entries.push(entry)),
{
    let pushed = entries.push(entry);
    assert forall|i: int, j: int| 0 <= i < j < pushed.len() implies entry_key(pushed[i])
        != entry_key(pushed[j]) by {
        if j < entries.len() {
            assert(entry_key(entries[i]) != entry_key(entries[j]));
        } else {
            assert(pushed[j] == entry);
            assert(entry_key(entries[i]) != entry_key(entry));
        }
    }
}

/// An entry of a uniquely keyed sequence is what the represented map holds
/// under its key.
proof fn lemma_entries_map_index(entries: Seq<SecretEntryModel>, i: int)
    requires
        unique_entry_keys(entries),
        0 <= i < entries.len(),
    ensures
        entries_map(entries).contains_key(entry_key(entries[i])),
        entries_map(entries)[entry_key(entries[i])] == entries[i].value,
    decreases entries.len(),
{
    if i == entries.len() - 1 {
    } else {
        let front = entries.drop_last();
        assert(forall|j: int| 0 <= j < front.len() ==> front[j] == entries[j]);
        lemma_entries_map_index(front, i);
        assert(entry_key(entries[i]) != entry_key(entries.last()));
    }
}

/// A key no entry carries is not in the represented map.
proof fn lemma_entries_map_absent(entries: Seq<SecretEntryModel>, key: (Seq<char>, SecretKind))
    requires
        forall|j: int| 0 <= j < entries.len() ==> entry_key(#[trigger] entries[j]) != key,
    ensures
        !entries_map(entries).contains_key(key),
    decreases entries.len(),
{
    if entries.len() > 0 {
        let front = entries.drop_last();
        assert(forall|j: int| 0 <= j < front.len() ==> front[j] == entries[j]);
        lemma_entries_map_absent(front, key);
    }
}

/// Dropping the entry at `i` from a uniquely keyed sequence removes exactly
/// its key from the represented map, and keeps the keys unique.
proof fn lemma_entries_map_remove(entries: Seq<SecretEntryModel>, i: int)
    requires
        unique_entry_keys(entries),
        0 <= i < entries.len(),
    ensures
        unique_entry_keys(entries.remove(i)),
        entries_map(entries.remove(i)) == entries_map(entries).remove(entry_key(entries[i])),
    decreases entries.len(),
{
    let shorter = entries.remove(i);
    assert(forall|j: int| 0 <= j < i ==> shorter[j] == entries[j]);
    assert(forall|j: int| i <= j < shorter.len() ==> shorter[j] == entries[j + 1]);
    assert(unique_entry_keys(shorter));
    if i == entries.len() - 1 {
        assert(shorter =~= entries.drop_last());
        assert(forall|j: int|
            0 <= j < shorter.len() ==> entry_key(#[trigger] shorter[j]) != entry_key(entries[i]));
        lemma_entries_map_absent(shorter, entry_key(entries[i]));
        assert(entries_map(shorter).remove(entry_key(entries[i])) =~= entries_map(shorter));
        assert(entries_map(entries).remove(entry_key(entries[i])) =~= entries_map(shorter));
    } else {
        let front = entries.drop_last();
        assert(forall|j: int| 0 <= j < front.len() ==> front[j] == entries[j]);
        lemma_entries_map_remove(front, i);
        assert(shorter.drop_last() =~= front.remove(i));
        assert(shorter.last() == entries.last());
        assert(entries_map(shorter) == entries_map(front.remove(i)).insert(
            entry_key(entries.last()),
            entries.last().value,
        ));
        assert(entry_key(entries[i]) != entry_key(entries.last()));
        assert(entries_map(shorter) =~= entries_map(entries).remove(entry_key(entries[i])));
    }
}

} // verus!
