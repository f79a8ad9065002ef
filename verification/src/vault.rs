//! Vaults: ordered collections of encrypted records.
//!
//! A record keeps its payload sealed under the key of its vault. The plaintext
//! exists only in the buffer that a read hands out.

use vstd::prelude::*;
use vstd::bytes::{spec_u64_to_le_bytes, u64_to_le_bytes};
use crate::buffer::Buffer;
use crate::cipher::{KEY_SIZE, MESSAGE_LIMIT, random_key, seal, unseal, unsealed};
use crate::error::EngineError;
use crate::ids::{Id, Location, LocationView, RecordHint, RecordId, derived};
use crate::table::Entry;
use crate::wipe::wipe_bytes;

verus! {

/// The mathematical value of a [`Record`].
pub struct RecordView {
    /// The identifier.
    pub id: Seq<u8>,
    /// The hint.
    pub hint: Seq<u8>,
    /// The sealed payload.
    pub sealed: Seq<u8>,
    /// Whether the record has been revoked.
    pub revoked: bool,
}

/// An encrypted secret with its hint.
pub struct Record {
    id: RecordId,
    hint: RecordHint,
    payload: Buffer,
    revoked: bool,
}

impl View for Record {
    type V = RecordView;

    closed spec fn view(&self) -> RecordView {
        RecordView {
            id: self.id@,
            hint: self.hint@,
            sealed: self.payload@,
            revoked: self.revoked,
        }
    }
}

impl Record {
    /// A record of the parts given.
    pub fn new(id: RecordId, hint: RecordHint, sealed: Vec<u8>, revoked: bool) -> (record: Record)
        ensures
            record@ == (RecordView { id: id@, hint: hint@, sealed: sealed@, revoked }),
    {
        Record { id, hint, payload: Buffer::from_vec(sealed), revoked }
    }

    /// The identifier.
    pub fn id(&self) -> (id: RecordId)
        ensures
            id@ == self@.id,
    {
        self.id
    }

    /// The hint.
    pub fn hint(&self) -> (hint: RecordHint)
        ensures
            hint@ == self@.hint,
    {
        self.hint
    }

    /// The sealed payload.
    pub fn sealed(&self) -> (sealed: &[u8])
        ensures
            sealed@ == self@.sealed,
    {
        self.payload.borrow()
    }

    /// Whether the record has been revoked.
    pub fn revoked(&self) -> (revoked: bool)
        ensures
            revoked == self@.revoked,
    {
        self.revoked
    }

    /// A copy of the record.
    pub fn duplicate(&self) -> (copy: Record)
        ensures
            copy@ == self@,
    {
        Record {
            id: self.id,
            hint: self.hint,
            payload: self.payload.duplicate(),
            revoked: self.revoked,
        }
    }
}

/// The position of the first of `records` that has the identifier `id`.
pub open spec fn position(records: Seq<RecordView>, id: Seq<u8>) -> Option<int>
    decreases records.len(),
{
    if records.len() == 0 {
        None
    } else {
        match position(records.drop_last(), id) {
            Some(i) => Some(i),
            None => if records.last().id == id {
                Some(records.len() - 1)
            } else {
                None
            },
        }
    }
}

/// `records` without those that have been revoked.
pub open spec fn live(records: Seq<RecordView>) -> Seq<RecordView>
    decreases records.len(),
{
    if records.len() == 0 {
        Seq::empty()
    } else if records.last().revoked {
        live(records.drop_last())
    } else {
        live(records.drop_last()).push(records.last())
    }
}

/// The identifiers and hints of `records`, in order.
pub open spec fn labels(records: Seq<RecordView>) -> Seq<(Seq<u8>, Seq<u8>)> {
    Seq::new(records.len(), |i: int| (records[i].id, records[i].hint))
}

/// What [`position`] finds: the first record with the identifier, or none if
/// there is no such record.
pub proof fn law_position_is_first(records: Seq<RecordView>, id: Seq<u8>)
    ensures
        match position(records, id) {
            Some(i) => {
                &&& 0 <= i < records.len()
                &&& records[i].id == id
                &&& forall|j: int| 0 <= j < i ==> (#[trigger] records[j]).id != id
            },
            None => forall|j: int| 0 <= j < records.len() ==> (#[trigger] records[j]).id != id,
        },
    decreases records.len(),
{
    if records.len() > 0 {
        law_position_is_first(records.drop_last(), id);
        assert forall|j: int| 0 <= j < records.len() - 1 implies records.drop_last()[j]
            == records[j] by {}
        match position(records.drop_last(), id) {
            Some(i) => {
                assert(records.drop_last()[i] == records[i]);
                assert forall|j: int| 0 <= j < i implies (#[trigger] records[j]).id != id by {
                    assert(records.drop_last()[j] == records[j]);
                }
            },
            None => {
                assert forall|j: int| 0 <= j < records.len() - 1 implies (#[trigger] records[j]).id
                    != id by {
                    assert(records.drop_last()[j] == records[j]);
                }
            },
        }
    }
}

/// A record found among the first `n` records is the one found among all.
pub proof fn lemma_position_prefix(records: Seq<RecordView>, id: Seq<u8>, n: int)
    requires
        0 <= n <= records.len(),
        position(records.take(n), id) is Some,
    ensures
        position(records, id) == position(records.take(n), id),
    decreases records.len() - n,
{
    if n < records.len() {
        assert(records.take(n + 1).drop_last() =~= records.take(n));
        lemma_position_prefix(records, id, n + 1);
    } else {
        assert(records.take(n) =~= records);
    }
}

/// A record that sits at `i` and has no namesake before it is the one that its
/// identifier finds.
pub proof fn lemma_position_at(records: Seq<RecordView>, id: Seq<u8>, i: int)
    requires
        0 <= i < records.len(),
        records[i].id == id,
        forall|j: int| 0 <= j < i ==> (#[trigger] records[j]).id != id,
    ensures
        position(records, id) == Some(i),
{
    law_position_is_first(records, id);
}

/// What is written is read back: after a write to a location by path, or by a
/// position that is not behind the place for the next record, a read of the
/// same location gives the payload.
pub proof fn law_read_returns_written(
    before: VaultView,
    location: LocationView,
    payload: Seq<u8>,
    hint: Seq<u8>,
    after: VaultView,
)
    requires
        before.writes(location, payload, hint, after),
        location matches LocationView::Counter { counter, .. } ==> counter matches Some(k) && k
            <= before.records.len(),
    ensures
        after.secret(location) == Ok::<Seq<u8>, EngineError>(payload),
        after.has_record(location),
{
    match location {
        LocationView::Generic { vault_path, record_path } => {
            let id = path_record_id(vault_path, record_path);
            law_position_is_first(before.records, id);
            match before.slot_of(location) {
                Some(i) => {
                    assert forall|j: int| 0 <= j < i implies (#[trigger] after.records[j]).id
                        != id by {
                        assert(after.records[j] == before.records[j]);
                    }
                    lemma_position_at(after.records, id, i);
                },
                None => {
                    let n = before.records.len() as int;
                    assert forall|j: int| 0 <= j < n implies (#[trigger] after.records[j]).id
                        != id by {
                        assert(after.records[j] == before.records[j]);
                    }
                    lemma_position_at(after.records, id, n);
                },
            }
        },
        LocationView::Counter { vault_path, counter } => {},
    }
}

/// A revoked record reads as nothing: after the record that a location names
/// has been revoked, a read of the location gives no bytes, whatever the
/// record held.
pub proof fn law_revoked_reads_nothing(vault: VaultView, location: LocationView)
    requires
        vault.slot_of(location) is Some,
    ensures
        vault.revoked_at(vault.slot_of(location)->0).secret(location) == Ok::<
            Seq<u8>,
            EngineError,
        >(Seq::empty()),
        !vault.revoked_at(vault.slot_of(location)->0).has_record(location),
{
    let i = vault.slot_of(location)->0;
    let after = vault.revoked_at(i);
    match location {
        LocationView::Generic { vault_path, record_path } => {
            let id = path_record_id(vault_path, record_path);
            law_position_is_first(vault.records, id);
            assert forall|j: int| 0 <= j < i implies (#[trigger] after.records[j]).id != id by {
                assert(after.records[j] == vault.records[j]);
            }
            lemma_position_at(after.records, id, i);
        },
        LocationView::Counter { vault_path, counter } => {},
    }
}

/// Garbage collection drops the revoked records and nothing else: no record
/// that is left is revoked, the listing is as before, and collecting again
/// changes nothing.
pub proof fn law_collection_keeps_the_living(records: Seq<RecordView>)
    ensures
        forall|i: int| 0 <= i < live(records).len() ==> !(#[trigger] live(records)[i]).revoked,
        live(live(records)) == live(records),
        live(records).len() <= records.len(),
    decreases records.len(),
{
    if records.len() > 0 {
        law_collection_keeps_the_living(records.drop_last());
        let rest = live(records.drop_last());
        if !records.last().revoked {
            assert(rest.push(records.last()).drop_last() =~= rest);
        }
    }
}

/// The identifier of the record with the path `record_path` in the vault with
/// the path `vault_path`.
pub open spec fn path_record_id(vault_path: Seq<u8>, record_path: Seq<u8>) -> Seq<u8> {
    derived(seq![0u8] + record_path, vault_path)
}

/// The identifier of the record that was appended by position to the vault
/// with the path `vault_path`, as the `n`-th such record.
pub open spec fn appended_record_id(vault_path: Seq<u8>, n: u64) -> Seq<u8> {
    derived(seq![1u8] + spec_u64_to_le_bytes(n), vault_path)
}

/// The mathematical value of a [`Vault`].
pub struct VaultView {
    /// The key that the payloads are sealed under.
    pub key: Seq<u8>,
    /// The records, oldest first.
    pub records: Seq<RecordView>,
    /// How many records have been appended by position.
    pub appended: u64,
}

impl VaultView {
    /// Whether the vault is in order: its key has the length that the cipher
    /// asks for.
    pub open spec fn wf(self) -> bool {
        self.key.len() == KEY_SIZE
    }

    /// The position of the record that `location` names: the first record with
    /// the identifier of its path, or the position that it counts to, as far
    /// as the vault has a record there.
    pub open spec fn slot_of(self, location: LocationView) -> Option<int> {
        match location {
            LocationView::Generic { vault_path, record_path } => position(
                self.records,
                path_record_id(vault_path, record_path),
            ),
            LocationView::Counter { vault_path, counter } => match counter {
                Some(k) => if k < self.records.len() {
                    Some(k as int)
                } else {
                    None
                },
                None => None,
            },
        }
    }

    /// The identifier that a new record at `location` gets.
    pub open spec fn new_id(self, location: LocationView) -> Seq<u8> {
        match location {
            LocationView::Generic { vault_path, record_path } => path_record_id(
                vault_path,
                record_path,
            ),
            LocationView::Counter { vault_path, counter } => appended_record_id(
                vault_path,
                self.appended,
            ),
        }
    }

    /// The count of appended records after a new record at `location`.
    pub open spec fn new_appended(self, location: LocationView) -> u64 {
        if location is Counter && self.appended < u64::MAX {
            (self.appended + 1) as u64
        } else {
            self.appended
        }
    }

    /// Whether `next` is this vault after `payload` was written to
    /// `location` with `hint`: the record that the location names is replaced
    /// by a record with the same identifier, or a new record is put behind
    /// the last; either way the record is not revoked and unseals to the
    /// payload.
    pub open spec fn writes(
        self,
        location: LocationView,
        payload: Seq<u8>,
        hint: Seq<u8>,
        next: VaultView,
    ) -> bool {
        &&& next.key == self.key
        &&& match self.slot_of(location) {
            Some(i) => {
                &&& next.records.len() == self.records.len()
                &&& next.records == self.records.update(i, next.records[i])
                &&& next.records[i].id == self.records[i].id
                &&& next.records[i].hint == hint
                &&& !next.records[i].revoked
                &&& unsealed(self.key, next.records[i].sealed) == Some(payload)
                &&& next.appended == self.appended
            },
            None => {
                &&& next.records.len() == self.records.len() + 1
                &&& next.records == self.records.push(next.records.last())
                &&& next.records.last().id == self.new_id(location)
                &&& next.records.last().hint == hint
                &&& !next.records.last().revoked
                &&& unsealed(self.key, next.records.last().sealed) == Some(payload)
                &&& next.appended == self.new_appended(location)
            },
        }
    }

    /// What a read of `location` gives: the payload of the record that the
    /// location names; nothing where there is no such record or it has been
    /// revoked; an error where the record does not unseal.
    pub open spec fn secret(self, location: LocationView) -> Result<Seq<u8>, EngineError> {
        match self.slot_of(location) {
            Some(i) => if self.records[i].revoked {
                Ok(Seq::empty())
            } else {
                match unsealed(self.key, self.records[i].sealed) {
                    Some(payload) => Ok(payload),
                    None => Err(EngineError::DecryptionFailed),
                }
            },
            None => Ok(Seq::empty()),
        }
    }

    /// Whether `location` names a record that has not been revoked.
    pub open spec fn has_record(self, location: LocationView) -> bool {
        self.slot_of(location) matches Some(i) && !self.records[i].revoked
    }

    /// The vault with the record at position `i` revoked.
    pub open spec fn revoked_at(self, i: int) -> VaultView {
        VaultView {
            records: self.records.update(i, RecordView { revoked: true, ..self.records[i] }),
            ..self
        }
    }

    /// The vault without its revoked records.
    pub open spec fn collected(self) -> VaultView {
        VaultView { records: live(self.records), ..self }
    }

    /// The identifiers and hints of the records that have not been revoked,
    /// oldest first.
    pub open spec fn listing(self) -> Seq<(Seq<u8>, Seq<u8>)> {
        labels(live(self.records))
    }
}

/// An ordered collection of records under one key. The key is wiped when
/// the vault goes out of scope, as are the payloads of its records.
pub struct Vault {
    key: Buffer,
    records: Vec<Record>,
    appended: u64,
}

impl View for Vault {
    type V = VaultView;

    closed spec fn view(&self) -> VaultView {
        VaultView {
            key: self.key@,
            records: self.records@.map_values(|record: Record| record@),
            appended: self.appended,
        }
    }
}

impl Vault {
    /// An empty vault under a fresh random key.
    pub fn new() -> (vault: Vault)
        ensures
            vault@.wf(),
            vault@.records == Seq::<RecordView>::empty(),
            vault@.appended == 0,
    {
        let vault = Vault { key: Buffer::from_vec(random_key()), records: Vec::new(), appended: 0 };
        assert(vault@.records =~= Seq::<RecordView>::empty());
        vault
    }

    /// A vault of the parts given. A key of another length than
    /// [`KEY_SIZE`] is refused.
    pub fn from_parts(key: Vec<u8>, records: Vec<Record>, appended: u64) -> (vault: Option<Vault>)
        ensures
            match vault {
                Some(vault) => key@.len() == KEY_SIZE && vault@ == (VaultView {
                    key: key@,
                    records: records@.map_values(|record: Record| record@),
                    appended,
                }),
                None => key@.len() != KEY_SIZE,
            },
    {
        if key.len() != KEY_SIZE {
            let mut key = key;
            wipe_bytes(&mut key);
            return None;
        }
        Some(Vault { key: Buffer::from_vec(key), records, appended })
    }

    /// The key.
    pub fn key(&self) -> (key: &[u8])
        ensures
            key@ == self@.key,
    {
        self.key.borrow()
    }

    /// The number of records, revoked ones included.
    pub fn len(&self) -> (len: usize)
        ensures
            len == self@.records.len(),
    {
        self.records.len()
    }

    /// The record at a position.
    pub fn record_at(&self, i: usize) -> (record: &Record)
        requires
            i < self@.records.len(),
        ensures
            record@ == self@.records[i as int],
    {
        &self.records[i]
    }

    /// How many records have been appended by position.
    pub fn appended(&self) -> (appended: u64)
        ensures
            appended == self@.appended,
    {
        self.appended
    }

    /// A copy of the vault.
    pub fn duplicate(&self) -> (copy: Vault)
        ensures
            copy@ == self@,
    {
        let mut records: Vec<Record> = Vec::new();
        let mut i: usize = 0;
        while i < self.records.len()
            invariant
                i <= self.records@.len(),
                records@.map_values(|record: Record| record@) == self@.records.take(i as int),
            decreases self.records@.len() - i,
        {
            let ghost copied = records@.map_values(|record: Record| record@);
            records.push(self.records[i].duplicate());
            assert(records@.map_values(|record: Record| record@) =~= copied.push(
                self@.records[i as int],
            ));
            assert(self@.records.take(i + 1) =~= self@.records.take(i as int).push(
                self@.records[i as int],
            ));
            i += 1;
        }
        assert(self@.records.take(self.records@.len() as int) =~= self@.records);
        Vault { key: self.key.duplicate(), records, appended: self.appended }
    }

    /// The position of the first record with the identifier `id`.
    fn find(&self, id: &Id) -> (found: Option<usize>)
        ensures
            match found {
                Some(i) => position(self@.records, id@) == Some(i as int) && i
                    < self@.records.len(),
                None => position(self@.records, id@) is None,
            },
    {
        let mut i: usize = 0;
        assert(self@.records.take(0) =~= Seq::<RecordView>::empty());
        while i < self.records.len()
            invariant
                i <= self.records@.len(),
                position(self@.records.take(i as int), id@) is None,
            decreases self.records@.len() - i,
        {
            assert(self@.records.take(i + 1).drop_last() =~= self@.records.take(i as int));
            if self.records[i].id.same(id) {
                proof {
                    lemma_position_prefix(self@.records, id@, i + 1);
                }
                return Some(i);
            }
            i += 1;
        }
        assert(self@.records.take(i as int) =~= self@.records);
        None
    }

    /// The position of the record that `location` names.
    pub fn slot_of(&self, location: &Location) -> (slot: Option<usize>)
        ensures
            match slot {
                Some(i) => self@.slot_of(location@) == Some(i as int) && i < self@.records.len(),
                None => self@.slot_of(location@) is None,
            },
    {
        match location {
            Location::Generic { vault_path, record_path } => {
                let id = record_id(vault_path.as_slice(), record_path.as_slice());
                self.find(&id)
            },
            Location::Counter { vault_path, counter } => match counter {
                Some(k) => {
                    if *k < self.records.len() {
                        Some(*k)
                    } else {
                        None
                    }
                },
                None => None,
            },
        }
    }

    /// Writes `payload` to `location` with `hint`. A payload that is too long
    /// to be encrypted is refused, and the vault stays as it is.
    pub fn write(&mut self, location: &Location, payload: &[u8], hint: RecordHint) -> (result:
        Result<(), EngineError>)
        requires
            old(self)@.wf(),
        ensures
            final(self)@.wf(),
            match result {
                Ok(()) => payload@.len() < MESSAGE_LIMIT && old(self)@.writes(
                    location@,
                    payload@,
                    hint@,
                    final(self)@,
                ),
                Err(e) => payload@.len() >= MESSAGE_LIMIT && e == EngineError::InvalidArgument
                    && final(self)@ == old(self)@,
            },
    {
        let sealed = match seal(self.key.borrow(), payload) {
            Some(sealed) => sealed,
            None => {
                return Err(EngineError::InvalidArgument);
            },
        };
        match self.slot_of(location) {
            Some(i) => {
                let id = self.records[i].id;
                let record = Record::new(id, hint, sealed, false);
                self.records.set(i, record);
                assert(self@.records =~= old(self)@.records.update(i as int, self@.records[i as int]));
            },
            None => {
                let id = match location {
                    Location::Generic { vault_path, record_path } => record_id(
                        vault_path.as_slice(),
                        record_path.as_slice(),
                    ),
                    Location::Counter { vault_path, .. } => {
                        let id = appended_id(vault_path.as_slice(), self.appended);
                        if self.appended < u64::MAX {
                            self.appended = self.appended + 1;
                        }
                        id
                    },
                };
                let record = Record::new(id, hint, sealed, false);
                self.records.push(record);
                assert(self@.records =~= old(self)@.records.push(self@.records.last()));
            },
        }
        Ok(())
    }

    /// Reads the secret at `location` into a buffer.
    pub fn read(&self, location: &Location) -> (result: Result<Buffer, EngineError>)
        requires
            self@.wf(),
        ensures
            match result {
                Ok(buffer) => self@.secret(location@) == Ok::<Seq<u8>, EngineError>(buffer@),
                Err(e) => self@.secret(location@) == Err::<Seq<u8>, EngineError>(e),
            },
    {
        match self.slot_of(location) {
            Some(i) => {
                let record = &self.records[i];
                if record.revoked {
                    return Ok(Buffer::empty());
                }
                match unseal(self.key.borrow(), record.payload.borrow()) {
                    Some(plain) => Ok(Buffer::from_vec(plain)),
                    None => Err(EngineError::DecryptionFailed),
                }
            },
            None => Ok(Buffer::empty()),
        }
    }

    /// Whether `location` names a record that has not been revoked.
    pub fn has_record(&self, location: &Location) -> (yes: bool)
        ensures
            yes == self@.has_record(location@),
    {
        match self.slot_of(location) {
            Some(i) => !self.records[i].revoked,
            None => false,
        }
    }

    /// Marks the record at `location` as revoked. Its payload stays until the
    /// vault is garbage-collected.
    pub fn revoke(&mut self, location: &Location) -> (result: Result<(), EngineError>)
        ensures
            match result {
                Ok(()) => old(self)@.slot_of(location@) matches Some(i) && final(self)@ == old(
                    self,
                )@.revoked_at(i),
                Err(e) => old(self)@.slot_of(location@) is None && e == EngineError::RecordNotFound
                    && final(self)@ == old(self)@,
            },
    {
        match self.slot_of(location) {
            Some(i) => {
                let record = &self.records[i];
                let marked = Record {
                    id: record.id,
                    hint: record.hint,
                    payload: record.payload.duplicate(),
                    revoked: true,
                };
                self.records.set(i, marked);
                assert(self@.records =~= old(self)@.revoked_at(i as int).records);
                Ok(())
            },
            None => Err(EngineError::RecordNotFound),
        }
    }

    /// Drops the revoked records. Their payloads are overwritten with zeros as
    /// they go.
    pub fn garbage_collect(&mut self)
        ensures
            final(self)@ == old(self)@.collected(),
    {
        let mut kept: Vec<Record> = Vec::new();
        let ghost before = self@.records;
        let ghost key = self@.key;
        let ghost appended = self@.appended;
        assert(before.take(before.len() as int) =~= before);
        while self.records.len() > 0
            invariant
                self@.key == key,
                self@.appended == appended,
                self@.records.len() <= before.len(),
                self@.records == before.take(self@.records.len() as int),
                live(before) == live(self@.records) + kept@.map_values(|record: Record| record@).reverse(),
            decreases self.records@.len(),
        {
            let ghost current = self@.records;
            let ghost tail = kept@.map_values(|record: Record| record@);
            match self.records.pop() {
                Some(record) => {
                    proof {
                        assert(self@.records =~= current.drop_last());
                        assert(record@ == current.last());
                        assert(self@.records =~= before.take(self@.records.len() as int));
                    }
                    if !record.revoked {
                        kept.push(record);
                        proof {
                            let tail2 = kept@.map_values(|record: Record| record@);
                            assert(tail2 =~= tail.push(current.last()));
                            assert(tail2.reverse() =~= seq![current.last()] + tail.reverse());
                            assert(live(current) + tail.reverse() =~= live(current.drop_last())
                                + tail2.reverse());
                        }
                    }
                },
                None => {},
            }
        }
        assert(live(self@.records) =~= Seq::<RecordView>::empty());
        // put the kept records back, oldest first
        let ghost tail = kept@.map_values(|record: Record| record@);
        while kept.len() > 0
            invariant
                self@.key == key,
                self@.appended == appended,
                tail.reverse() == self@.records + kept@.map_values(|record: Record| record@).reverse(),
            decreases kept@.len(),
        {
            let ghost current = kept@.map_values(|record: Record| record@);
            let ghost records = self@.records;
            match kept.pop() {
                Some(record) => {
                    self.records.push(record);
                    proof {
                        let rest = kept@.map_values(|record: Record| record@);
                        assert(rest =~= current.drop_last());
                        assert(self@.records =~= records.push(current.last()));
                        assert(current.reverse() =~= seq![current.last()] + rest.reverse());
                        assert(records + current.reverse() =~= self@.records + rest.reverse());
                    }
                },
                None => {},
            }
        }
        assert(self@.records =~= tail.reverse());
    }

    /// The identifiers and hints of the records that have not been revoked,
    /// oldest first.
    pub fn list_hints_and_ids(&self) -> (listing: Vec<(RecordId, RecordHint)>)
        ensures
            listing@.len() == self@.listing().len(),
            forall|i: int|
                0 <= i < listing@.len() ==> (#[trigger] listing@[i]).0@ == self@.listing()[i].0
                    && listing@[i].1@ == self@.listing()[i].1,
    {
        let mut listing: Vec<(RecordId, RecordHint)> = Vec::new();
        let mut i: usize = 0;
        assert(self@.records.take(0) =~= Seq::<RecordView>::empty());
        while i < self.records.len()
            invariant
                i <= self.records@.len(),
                listing@.len() == live(self@.records.take(i as int)).len(),
                forall|j: int|
                    0 <= j < listing@.len() ==> (#[trigger] listing@[j]).0@ == live(
                        self@.records.take(i as int),
                    )[j].id && listing@[j].1@ == live(self@.records.take(i as int))[j].hint,
            decreases self.records@.len() - i,
        {
            assert(self@.records.take(i + 1).drop_last() =~= self@.records.take(i as int));
            let record = &self.records[i];
            if !record.revoked {
                listing.push((record.id, record.hint));
            }
            i += 1;
        }
        assert(self@.records.take(i as int) =~= self@.records);
        listing
    }
}

impl Entry for Vault {
    open spec fn valid(&self) -> bool {
        self@.wf()
    }

    fn duplicate(&self) -> (copy: Self) {
        Vault::duplicate(self)
    }
}

/// The identifier of the record with the path `record_path` in the vault with
/// the path `vault_path`.
pub fn record_id(vault_path: &[u8], record_path: &[u8]) -> (id: RecordId)
    ensures
        id@ == path_record_id(vault_path@, record_path@),
{
    let mut message: Vec<u8> = Vec::new();
    message.push(0u8);
    let mut i: usize = 0;
    while i < record_path.len()
        invariant
            i <= record_path@.len(),
            message@ == seq![0u8] + record_path@.take(i as int),
        decreases record_path@.len() - i,
    {
        message.push(record_path[i]);
        i += 1;
    }
    assert(record_path@.take(i as int) =~= record_path@);
    Id::load_from_path(message.as_slice(), vault_path)
}

/// The identifier of the `n`-th record appended by position to the vault with
/// the path `vault_path`.
pub fn appended_id(vault_path: &[u8], n: u64) -> (id: RecordId)
    ensures
        id@ == appended_record_id(vault_path@, n),
{
    let number = u64_to_le_bytes(n);
    let mut message: Vec<u8> = Vec::new();
    message.push(1u8);
    let mut i: usize = 0;
    while i < number.len()
        invariant
            i <= number@.len(),
            message@ == seq![1u8] + number@.take(i as int),
        decreases number@.len() - i,
    {
        message.push(number[i]);
        i += 1;
    }
    assert(number@.take(i as int) =~= number@);
    Id::load_from_path(message.as_slice(), vault_path)
}

} // verus!
