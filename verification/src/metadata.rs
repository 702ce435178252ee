//! The metadata store: one relational table of identity metadata records,
//! keyed uniquely by public key, with a store-assigned import timestamp that
//! never decreases across insertions, so the records stay ordered by it.

use vstd::prelude::*;

use crate::errors::Error;

verus! {

/// One imported identity's non-secret description: its public key (unique,
/// never mutated), the wordlist its phrase uses, and when the store took it.
pub struct MetadataRecord {
    pub public_key: String,
    pub language_code: String,
    pub imported_at: u64,
}

/// The mathematical image of one metadata record.
pub ghost struct RecordModel {
    pub public_key: Seq<char>,
    pub language_code: Seq<char>,
    pub imported_at: u64,
}

impl View for MetadataRecord {
    type V = RecordModel;

    open spec fn view(&self) -> RecordModel {
        RecordModel {
            public_key: self.public_key@,
            language_code: self.language_code@,
            imported_at: self.imported_at,
        }
    }
}

impl MetadataRecord {
    /// A fresh record holding the same three fields.
    pub fn snapshot(&self) -> (r: MetadataRecord)
        ensures
            r@ == self@,
    {
        MetadataRecord {
            public_key: self.public_key.clone(),
            language_code: self.language_code.clone(),
            imported_at: self.imported_at,
        }
    }
}

/// Whether some record in `records` carries the public key `key`.
pub open spec fn has_key(records: Seq<RecordModel>, key: Seq<char>) -> bool {
    exists|i: int| 0 <= i < records.len() && records[i].public_key == key
}

/// How many records in `records` carry the public key `key`.
pub open spec fn key_count(records: Seq<RecordModel>, key: Seq<char>) -> nat
    decreases records.len(),
{
    if records.len() == 0 {
        0
    } else {
        key_count(records.drop_last(), key) + if records.last().public_key == key {
            1nat
        } else {
            0nat
        }
    }
}

/// No two records carry the same public key.
pub open spec fn unique_keys(records: Seq<RecordModel>) -> bool {
    forall|i: int, j: int|
        0 <= i < j < records.len() ==> records[i].public_key != records[j].public_key
}

/// The records are ordered by their import timestamp, ascending.
pub open spec fn time_sorted(records: Seq<RecordModel>) -> bool {
    forall|i: int, j: int|
        0 <= i <= j < records.len() ==> records[i].imported_at <= records[j].imported_at
}

/// `records` without every record that carries `key`.
pub open spec fn remove_key(records: Seq<RecordModel>, key: Seq<char>) -> Seq<RecordModel>
    decreases records.len(),
{
    if records.len() == 0 {
        Seq::empty()
    } else if records.first().public_key == key {
        remove_key(records.drop_first(), key)
    } else {
        seq![records.first()] + remove_key(records.drop_first(), key)
    }
}

/// The timestamp the store assigns to the next insertion when the wall clock
/// reads `now`: never before the newest record already held, so the order of
/// the table never turns back even if the clock does.
pub open spec fn assigned_time(records: Seq<RecordModel>, now: u64) -> u64 {
    if records.len() == 0 || records.last().imported_at <= now {
        now
    } else {
        records.last().imported_at
    }
}

/// The metadata table. Insertion enforces the uniqueness of public keys and
/// assigns the import timestamp; deletion is idempotent; listing returns the
/// records in import order.
pub struct MetadataStore {
    records: Vec<MetadataRecord>,
}

impl View for MetadataStore {
    type V = Seq<RecordModel>;

    closed spec fn view(&self) -> Seq<RecordModel> {
        self.records@.map_values(|r: MetadataRecord| r@)
    }
}

impl MetadataStore {
    /// The table's own invariant: unique keys, records ordered by timestamp.
    pub open spec fn wf(&self) -> bool {
        unique_keys(self@) && time_sorted(self@)
    }

    /// An empty table.
    pub fn new() -> (s: MetadataStore)
        ensures
            s@ == Seq::<RecordModel>::empty(),
            s.wf(),
    {
        MetadataStore { records: Vec::new() }
    }

    /// Whether a record with this public key is present.
    pub fn contains(&self, public_key: &String) -> (r: bool)
        ensures
            r == has_key(self@, public_key@),
    {
        let n = self.records.len();
        let mut i: usize = 0;
        while i < n
            invariant
                n == self.records.len(),
                i <= n,
                forall|j: int| 0 <= j < i ==> self@[j].public_key != public_key@,
            decreases n - i,
        {
            if self.records[i].public_key == *public_key {
                assert(self@[i as int].public_key == public_key@);
                return true;
            }
            i += 1;
        }
        false
    }

    /// Inserts a record for `public_key`, stamping it with the assigned
    /// timestamp, unless the key is already present: then the table is
    /// unchanged and the insert reports `DuplicateIdentity`.
    pub fn insert(&mut self, public_key: String, language_code: String, now: u64) -> (r: Result<
        (),
        Error,
    >)
        requires
            old(self).wf(),
        ensures
            final(self).wf(),
            has_key(old(self)@, public_key@) ==> r == Err::<(), Error>(Error::DuplicateIdentity)
                && final(self)@ == old(self)@,
            !has_key(old(self)@, public_key@) ==> r == Ok::<(), Error>(()) && final(self)@ == old(
                self,
            )@.push(
                RecordModel {
                    public_key: public_key@,
                    language_code: language_code@,
                    imported_at: assigned_time(old(self)@, now),
                },
            ),
    {
        if self.contains(&public_key) {
            return Err(Error::DuplicateIdentity);
        }
        let n = self.records.len();
        let imported_at: u64 = if n == 0 {
            now
        } else {
            let newest = self.records[n - 1].imported_at;
            assert(newest == self@.last().imported_at);
            if newest <= now {
                now
            } else {
                newest
            }
        };
        let record = MetadataRecord { public_key, language_code, imported_at };
        let ghost before = self@;
        self.records.push(record);
        proof {
            assert(self@ =~= before.push(record@));
            assert forall|i: int, j: int| 0 <= i <= j < self@.len() implies self@[i].imported_at
                <= self@[j].imported_at by {
                if j == self@.len() - 1 && i < j {
                    assert(before[i].imported_at <= before.last().imported_at);
                }
            }
        }
        Ok(())
    }

    /// Removes the record with this public key if one is present. Deleting an
    /// absent key is not an error: the call always succeeds.
    pub fn delete(&mut self, public_key: &String) -> (r: Result<(), Error>)
        requires
            old(self).wf(),
        ensures
            final(self).wf(),
            r == Ok::<(), Error>(()),
            final(self)@ == remove_key(old(self)@, public_key@),
    {
        let n = self.records.len();
        let mut kept: Vec<MetadataRecord> = Vec::new();
        let mut i: usize = 0;
        proof {
            assert(self@.skip(0) == self@);
        }
        while i < n
            invariant
                n == self.records.len(),
                i <= n,
                remove_key(self@, public_key@) == kept@.map_values(|r: MetadataRecord| r@)
                    + remove_key(self@.skip(i as int), public_key@),
            decreases n - i,
        {
            let ghost rest = self@.skip(i as int);
            proof {
                assert(rest.first() == self@[i as int]);
                assert(rest.drop_first() =~= self@.skip(i as int + 1));
            }
            if self.records[i].public_key == *public_key {
                proof {
                    assert(remove_key(rest, public_key@) == remove_key(
                        rest.drop_first(),
                        public_key@,
                    ));
                }
            } else {
                let ghost kept_before = kept@.map_values(|r: MetadataRecord| r@);
                kept.push(self.records[i].snapshot());
                proof {
                    assert(kept@.map_values(|r: MetadataRecord| r@) =~= kept_before.push(
                        self@[i as int],
                    ));
                    assert(remove_key(rest, public_key@) == seq![rest.first()] + remove_key(
                        rest.drop_first(),
                        public_key@,
                    ));
                    assert(kept_before + remove_key(rest, public_key@) =~= kept_before.push(
                        self@[i as int],
                    ) + remove_key(rest.drop_first(), public_key@));
                }
            }
            i += 1;
        }
        proof {
            assert(self@.skip(n as int) =~= Seq::<RecordModel>::empty());
            assert(remove_key(self@, public_key@) =~= kept@.map_values(|r: MetadataRecord| r@));
            lemma_remove_key_keeps(self@, public_key@);
        }
        self.records = kept;
        Ok(())
    }

    /// A snapshot of the whole table, in import order.
    pub fn list(&self) -> (r: Vec<MetadataRecord>)
        ensures
            r@.map_values(|m: MetadataRecord| m@) == self@,
    {
        let n = self.records.len();
        let mut out: Vec<MetadataRecord> = Vec::new();
        let mut i: usize = 0;
        while i < n
            invariant
                n == self.records.len(),
                i <= n,
                out@.map_values(|m: MetadataRecord| m@) =~= self@.take(i as int),
            decreases n - i,
        {
            let ghost out_before = out@.map_values(|m: MetadataRecord| m@);
            out.push(self.records[i].snapshot());
            proof {
                assert(out@.map_values(|m: MetadataRecord| m@) =~= out_before.push(
                    self@[i as int],
                ));
                assert(self@.take(i as int + 1) =~= self@.take(i as int).push(self@[i as int]));
            }
            i += 1;
        }
        proof {
            assert(self@.take(n as int) =~= self@);
        }
        out
    }
}

/// Removing a key keeps exactly the records that carry other keys, in their
/// order: the result is a subsequence of the input with `key` gone.
pub proof fn lemma_remove_key_keeps(records: Seq<RecordModel>, key: Seq<char>)
    ensures
        !has_key(remove_key(records, key), key),
        forall|i: int|
            0 <= i < remove_key(records, key).len() ==> has_key(
                records,
                #[trigger] remove_key(records, key)[i].public_key,
            ),
        forall|i: int|
            0 <= i < records.len() && records[i].public_key != key ==> has_key(
                remove_key(records, key),
                #[trigger] records[i].public_key,
            ),
        unique_keys(records) ==> unique_keys(remove_key(records, key)),
        time_sorted(records) ==> time_sorted(remove_key(records, key)),
    decreases records.len(),
{
    if records.len() == 0 {
    } else {
        let rest = records.drop_first();
        lemma_remove_key_keeps(rest, key);
        assert(forall|i: int| 0 <= i < rest.len() ==> rest[i] == records[i + 1]);
        let out = remove_key(records, key);
        if records.first().public_key == key {
            assert(out == remove_key(rest, key));
            assert forall|i: int| 0 <= i < records.len() && records[i].public_key != key implies
                has_key(out, #[trigger] records[i].public_key) by {
                assert(records[i] == rest[i - 1]);
            }
            assert forall|i: int| 0 <= i < out.len() implies has_key(
                records,
                #[trigger] out[i].public_key,
            ) by {
                let w = choose|w: int| 0 <= w < rest.len() && rest[w].public_key
                    == out[i].public_key;
                assert(records[w + 1].public_key == out[i].public_key);
            }
        } else {
            let tail = remove_key(rest, key);
            assert(out == seq![records.first()] + tail);
            assert(out.first() == records.first());
            assert(forall|i: int| 0 <= i < tail.len() ==> out[i + 1] == tail[i]);
            assert(!has_key(out, key)) by {
                if has_key(out, key) {
                    let w = choose|w: int| 0 <= w < out.len() && out[w].public_key == key;
                    if w > 0 {
                        assert(tail[w - 1].public_key == key);
                    }
                }
            }
            assert forall|i: int| 0 <= i < records.len() && records[i].public_key != key implies
                has_key(out, #[trigger] records[i].public_key) by {
                if i == 0 {
                    assert(out[0].public_key == records[0].public_key);
                } else {
                    assert(records[i] == rest[i - 1]);
                    let w = choose|w: int| 0 <= w < tail.len() && tail[w].public_key
                        == records[i].public_key;
                    assert(out[w + 1].public_key == records[i].public_key);
                }
            }
            assert forall|i: int| 0 <= i < out.len() implies has_key(
                records,
                #[trigger] out[i].public_key,
            ) by {
                if i > 0 {
                    let w = choose|w: int| 0 <= w < rest.len() && rest[w].public_key
                        == out[i].public_key;
                    assert(records[w + 1].public_key == out[i].public_key);
                } else {
                    assert(records[0].public_key == out[0].public_key);
                }
            }
            if unique_keys(records) {
                assert(unique_keys(rest));
                assert forall|i: int, j: int| 0 <= i < j < out.len() implies out[i].public_key
                    != out[j].public_key by {
                    if i == 0 {
                        assert(has_key(rest, out[j].public_key)) by {
                            let w = choose|w: int| 0 <= w < tail.len() && tail[w].public_key
                                == out[j].public_key;
                        }
                        let w = choose|w: int| 0 <= w < rest.len() && rest[w].public_key
                            == out[j].public_key;
                        assert(records[0].public_key != records[w + 1].public_key);
                    } else {
                        assert(tail[i - 1].public_key != tail[j - 1].public_key);
                    }
                }
            }
            if time_sorted(records) {
                assert(time_sorted(rest));
                assert forall|i: int, j: int| 0 <= i <= j < out.len() implies out[i].imported_at
                    <= out[j].imported_at by {
                    if i == 0 && j > 0 {
                        assert(has_key(rest, out[j].public_key)) by {
                            let w = choose|w: int| 0 <= w < tail.len() && tail[w].public_key
                                == out[j].public_key;
                        }
                        lemma_remove_key_member_times(rest, key, j - 1);
                    } else if i > 0 {
                        assert(tail[i - 1].imported_at <= tail[j - 1].imported_at);
                    }
                }
            }
        }
    }
}

/// Every record that survives `remove_key` keeps a timestamp that some input
/// record at or after the front already had.
proof fn lemma_remove_key_member_times(records: Seq<RecordModel>, key: Seq<char>, i: int)
    requires
        time_sorted(records),
        0 <= i < remove_key(records, key).len(),
    ensures
        exists|w: int|
            0 <= w < records.len() && records[w] == remove_key(records, key)[i]
                && records[w].imported_at == remove_key(records, key)[i].imported_at,
    decreases records.len(),
{
    let rest = records.drop_first();
    let out = remove_key(records, key);
    assert(forall|k: int| 0 <= k < rest.len() ==> rest[k] == records[k + 1]);
    if records.first().public_key == key {
        assert(time_sorted(rest));
        lemma_remove_key_member_times(rest, key, i);
        let w = choose|w: int| 0 <= w < rest.len() && rest[w] == out[i];
        assert(records[w + 1] == out[i]);
    } else {
        if i == 0 {
            assert(records[0] == out[0]);
        } else {
            assert(time_sorted(rest));
            let tail = remove_key(rest, key);
            assert(out[i] == tail[i - 1]);
            lemma_remove_key_member_times(rest, key, i - 1);
            let w = choose|w: int| 0 <= w < rest.len() && rest[w] == tail[i - 1];
            assert(records[w + 1] == out[i]);
        }
    }
}

/// A key missing from `records` is counted zero times, and removing it
/// changes nothing; a present key is counted at least once.
pub proof fn lemma_key_count_zero(records: Seq<RecordModel>, key: Seq<char>)
    ensures
        key_count(records, key) == 0 <==> !has_key(records, key),
        !has_key(records, key) ==> remove_key(records, key) == records,
    decreases records.len(),
{
    if records.len() == 0 {
        assert(remove_key(records, key) =~= records);
    } else {
        lemma_key_count_zero(records.drop_last(), key);
        assert(forall|i: int|
            0 <= i < records.len() - 1 ==> records.drop_last()[i] == records[i]);
        if has_key(records, key) {
            let w = choose|w: int| 0 <= w < records.len() && records[w].public_key == key;
            if w < records.len() - 1 {
                assert(records.drop_last()[w].public_key == key);
            }
            assert(key_count(records, key) > 0);
        } else {
            assert(!has_key(records.drop_last(), key));
            lemma_remove_key_drop_last(records, key);
            assert(remove_key(records, key) =~= records);
        }
    }
}

/// Unfolding `remove_key` from the back instead of the front.
proof fn lemma_remove_key_drop_last(records: Seq<RecordModel>, key: Seq<char>)
    requires
        records.len() > 0,
    ensures
        records.last().public_key == key ==> remove_key(records, key) == remove_key(
            records.drop_last(),
            key,
        ),
        records.last().public_key != key ==> remove_key(records, key) == remove_key(
            records.drop_last(),
            key,
        ).push(records.last()),
    decreases records.len(),
{
    let rest = records.drop_first();
    if records.len() == 1 {
        assert(rest.len() == 0);
        assert(remove_key(rest, key) =~= Seq::<RecordModel>::empty());
        assert(records.drop_last().len() == 0);
        assert(remove_key(records.drop_last(), key) =~= Seq::<RecordModel>::empty());
        if records.last().public_key != key {
            assert(remove_key(records, key) =~= remove_key(records.drop_last(), key).push(
                records.last(),
            ));
        }
    } else {
        lemma_remove_key_drop_last(rest, key);
        assert(rest.last() == records.last());
        assert(rest.drop_last() =~= records.drop_last().drop_first());
        assert(records.drop_last().len() > 0);
        assert(records.drop_last().first() == records.first());
        if records.first().public_key == key {
            assert(remove_key(records.drop_last(), key) == remove_key(rest.drop_last(), key));
            if records.last().public_key != key {
                assert(remove_key(records, key) =~= remove_key(records.drop_last(), key).push(
                    records.last(),
                ));
            }
        } else {
            assert(remove_key(records.drop_last(), key) == seq![records.first()] + remove_key(
                rest.drop_last(),
                key,
            ));
            if records.last().public_key == key {
                assert(remove_key(records, key) =~= remove_key(records.drop_last(), key));
            } else {
                assert(remove_key(records, key) =~= remove_key(records.drop_last(), key).push(
                    records.last(),
                ));
            }
        }
    }
}

/// Counting after a push: the new record raises the count of its own key by
/// one and leaves every other key's count alone.
pub proof fn lemma_key_count_push(records: Seq<RecordModel>, record: RecordModel, key: Seq<char>)
    ensures
        record.public_key == key ==> key_count(records.push(record), key) == key_count(
            records,
            key,
        ) + 1,
        record.public_key != key ==> key_count(records.push(record), key) == key_count(
            records,
            key,
        ),
{
    assert(records.push(record).drop_last() =~= records);
}

/// Whether a pushed sequence carries a key: either the old part did, or the
/// new record does.
pub proof fn lemma_has_key_push(records: Seq<RecordModel>, record: RecordModel, key: Seq<char>)
    ensures
        has_key(records.push(record), key) <==> (has_key(records, key) || record.public_key
            == key),
{
    let pushed = records.push(record);
    if has_key(records, key) {
        let w = choose|w: int| 0 <= w < records.len() && records[w].public_key == key;
        assert(pushed[w].public_key == key);
    }
    if record.public_key == key {
        assert(pushed[records.len() as int].public_key == key);
    }
    if has_key(pushed, key) && !has_key(records, key) {
        let w = choose|w: int| 0 <= w < pushed.len() && pushed[w].public_key == key;
        if w < records.len() {
            assert(records[w].public_key == key);
        }
    }
}

} // verus!
