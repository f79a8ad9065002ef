//! The state of one client: its vaults and its store.

use vstd::prelude::*;
use crate::buffer::Buffer;
use crate::cipher::MESSAGE_LIMIT;
use crate::error::EngineError;
use crate::ids::{Location, LocationView, RecordHint, RecordId, derived};
use crate::mask::copy_of;
use crate::table::{Entry, Table};
use crate::vault::{
    Vault, VaultView, appended_id, appended_record_id, law_read_returns_written, path_record_id,
    record_id,
};

verus! {

/// The mathematical value of a [`StoreEntry`].
pub struct StoreEntryView {
    pub value: Seq<u8>,
    pub ttl: Option<u64>,
}

/// A value of the store, with the time that it may live.
pub struct StoreEntry {
    pub value: Vec<u8>,
    pub ttl: Option<u64>,
}

impl View for StoreEntry {
    type V = StoreEntryView;

    open spec fn view(&self) -> StoreEntryView {
        StoreEntryView { value: self.value@, ttl: self.ttl }
    }
}

impl Entry for StoreEntry {
    open spec fn valid(&self) -> bool {
        true
    }

    fn duplicate(&self) -> (copy: Self) {
        StoreEntry { value: copy_of(self.value.as_slice()), ttl: self.ttl }
    }
}

/// The key of `location` in the store: the identifier of its vault followed
/// by an identifier for the record path or the position.
pub open spec fn store_key(location: LocationView) -> Seq<u8> {
    location.vault_id() + match location {
        LocationView::Generic { vault_path, record_path } => path_record_id(
            vault_path,
            record_path,
        ),
        LocationView::Counter { vault_path, counter } => match counter {
            Some(k) => appended_record_id(vault_path, k as u64),
            None => derived(seq![2u8], vault_path),
        },
    }
}

/// The mathematical value of a [`ClientState`].
pub struct ClientStateView {
    /// The vaults, by identifier. Each carries its key.
    pub vaults: Map<Seq<u8>, VaultView>,
    /// The store, by the keys of the locations.
    pub store: Map<Seq<u8>, StoreEntryView>,
}

impl ClientStateView {
    /// The state of a client that has written nothing.
    pub open spec fn empty() -> ClientStateView {
        ClientStateView { vaults: Map::empty(), store: Map::empty() }
    }

    /// The keys of the vaults, by identifier.
    pub open spec fn keystore(self) -> Map<Seq<u8>, Seq<u8>> {
        self.vaults.map_values(|vault: VaultView| vault.key)
    }

    /// Whether the vault of `location` is there.
    pub open spec fn vault_exists(self, location: LocationView) -> bool {
        self.vaults.dom().contains(location.vault_id())
    }

    /// Whether `location` names a record that has not been revoked.
    pub open spec fn record_exists(self, location: LocationView) -> bool {
        self.vault_exists(location) && self.vaults[location.vault_id()].has_record(location)
    }

    /// What a read of `location` gives: nothing where the vault is missing,
    /// else what the vault gives.
    pub open spec fn secret(self, location: LocationView) -> Result<Seq<u8>, EngineError> {
        if self.vault_exists(location) {
            self.vaults[location.vault_id()].secret(location)
        } else {
            Ok(Seq::empty())
        }
    }

    /// Whether `next` is this state after `payload` was written to
    /// `location` with `hint`: the vault of the location, made for the
    /// occasion if it was missing, has taken the write; all else is as it was.
    pub open spec fn writes(
        self,
        location: LocationView,
        payload: Seq<u8>,
        hint: Seq<u8>,
        next: ClientStateView,
    ) -> bool {
        let id = location.vault_id();
        &&& next.store == self.store
        &&& next.vaults.dom().contains(id)
        &&& next.vaults == self.vaults.insert(id, next.vaults[id])
        &&& next.vaults[id].wf()
        &&& if self.vaults.dom().contains(id) {
            self.vaults[id].writes(location, payload, hint, next.vaults[id])
        } else {
            (VaultView { key: next.vaults[id].key, records: Seq::empty(), appended: 0 }).writes(
                location,
                payload,
                hint,
                next.vaults[id],
            )
        }
    }

    /// What the store holds for `location`: nothing where there is no entry.
    pub open spec fn stored(self, location: LocationView) -> Seq<u8> {
        if self.store.dom().contains(store_key(location)) {
            self.store[store_key(location)].value
        } else {
            Seq::empty()
        }
    }
}

/// No record is an orphan: the keystore has a key for exactly the vaults that
/// the client has, and it is the key that the vault is sealed under.
pub proof fn law_every_vault_has_a_key(state: ClientStateView, vault: Seq<u8>)
    ensures
        state.keystore().dom().contains(vault) <==> state.vaults.dom().contains(vault),
        state.vaults.dom().contains(vault) ==> state.keystore()[vault] == state.vaults[vault].key,
{
}

/// What a client writes it reads back: after a write to a location by path,
/// or by a position that is not behind the place for the next record, a read
/// of the same location gives the payload.
pub proof fn law_client_reads_written(
    before: ClientStateView,
    location: LocationView,
    payload: Seq<u8>,
    hint: Seq<u8>,
    after: ClientStateView,
)
    requires
        before.writes(location, payload, hint, after),
        location matches LocationView::Counter { counter, .. } ==> counter matches Some(k) && k
            <= (if before.vault_exists(location) {
            before.vaults[location.vault_id()].records.len()
        } else {
            0
        }),
    ensures
        after.vault_exists(location),
        after.record_exists(location),
        after.secret(location) == Ok::<Seq<u8>, EngineError>(payload),
{
    let id = location.vault_id();
    let base = if before.vaults.dom().contains(id) {
        before.vaults[id]
    } else {
        VaultView { key: after.vaults[id].key, records: Seq::empty(), appended: 0 }
    };
    law_read_returns_written(base, location, payload, hint, after.vaults[id]);
}

/// The vaults and the store of one client.
pub struct ClientState {
    vaults: Table<Vault>,
    store: Table<StoreEntry>,
}

impl View for ClientState {
    type V = ClientStateView;

    closed spec fn view(&self) -> ClientStateView {
        ClientStateView { vaults: self.vaults@, store: self.store@ }
    }
}

/// The key of `location` in the store.
pub fn store_key_of(location: &Location) -> (key: Vec<u8>)
    ensures
        key@ == store_key(location@),
{
    let vault = location.vault_id();
    let record = match location {
        Location::Generic { vault_path, record_path } => record_id(
            vault_path.as_slice(),
            record_path.as_slice(),
        ),
        Location::Counter { vault_path, counter } => match counter {
            Some(k) => appended_id(vault_path.as_slice(), *k as u64),
            None => {
                let mut message: Vec<u8> = Vec::new();
                message.push(2u8);
                assert(message@ =~= seq![2u8]);
                crate::ids::Id::load_from_path(message.as_slice(), vault_path.as_slice())
            },
        },
    };
    let mut key = copy_of(vault.as_slice());
    let tail = record.as_slice();
    let mut i: usize = 0;
    while i < tail.len()
        invariant
            i <= tail@.len(),
            key@ == vault@ + tail@.take(i as int),
        decreases tail@.len() - i,
    {
        key.push(tail[i]);
        i += 1;
    }
    assert(tail@.take(i as int) =~= tail@);
    key
}

impl ClientState {
    /// Whether the state is in order: its tables are, and so is every vault.
    pub closed spec fn wf(&self) -> bool {
        &&& self.vaults.wf()
        &&& self.store.wf()
    }

    /// The state of a client that has written nothing.
    pub fn new() -> (state: ClientState)
        ensures
            state.wf(),
            state@ == ClientStateView::empty(),
    {
        ClientState { vaults: Table::new(), store: Table::new() }
    }

    /// The state made of these tables.
    pub fn from_parts(vaults: Table<Vault>, store: Table<StoreEntry>) -> (state: ClientState)
        requires
            vaults.wf(),
            store.wf(),
        ensures
            state.wf(),
            state@ == (ClientStateView { vaults: vaults@, store: store@ }),
    {
        ClientState { vaults, store }
    }

    /// The vaults, by identifier.
    pub fn vaults(&self) -> (vaults: &Table<Vault>)
        requires
            self.wf(),
        ensures
            vaults.wf(),
            vaults@ == self@.vaults,
    {
        &self.vaults
    }

    /// The store.
    pub fn store(&self) -> (store: &Table<StoreEntry>)
        requires
            self.wf(),
        ensures
            store.wf(),
            store@ == self@.store,
    {
        &self.store
    }

    /// Whether the vault of `location` is there.
    pub fn vault_exists(&self, location: &Location) -> (yes: bool)
        requires
            self.wf(),
        ensures
            yes == self@.vault_exists(location@),
    {
        self.vaults.contains(location.vault_id().as_slice())
    }

    /// Whether `location` names a record that has not been revoked.
    pub fn record_exists(&self, location: &Location) -> (yes: bool)
        requires
            self.wf(),
        ensures
            yes == self@.record_exists(location@),
    {
        match self.vaults.get(location.vault_id().as_slice()) {
            Some(vault) => vault.has_record(location),
            None => false,
        }
    }

    /// Writes `payload` to `location` with `hint`. The vault is made, with a
    /// fresh key, if it is missing. A payload that is too long to be encrypted
    /// is refused, and the state stays as it is.
    pub fn write_to_vault(&mut self, location: &Location, payload: &[u8], hint: RecordHint) -> (result:
        Result<(), EngineError>)
        requires
            old(self).wf(),
        ensures
            final(self).wf(),
            match result {
                Ok(()) => payload@.len() < MESSAGE_LIMIT && old(self)@.writes(
                    location@,
                    payload@,
                    hint@,
                    final(self)@,
                ),
                Err(e) => payload@.len() >= MESSAGE_LIMIT && e == EngineError::InvalidArgument
                    && final(self)@ == old(self)@,
            },
    {
        if payload.len() as u64 >= MESSAGE_LIMIT {
            return Err(EngineError::InvalidArgument);
        }
        let id = location.vault_id();
        let mut vault = match self.vaults.remove(id.as_slice()) {
            Some(vault) => vault,
            None => Vault::new(),
        };
        let written = vault.write(location, payload, hint);
        assert(written is Ok);
        self.vaults.insert(id.as_slice(), vault);
        proof {
            let next = self@;
            assert(next.vaults =~= old(self)@.vaults.insert(id@, next.vaults[id@]));
        }
        Ok(())
    }

    /// Reads the secret at `location` into a buffer. The buffer is empty
    /// where the vault or the record is missing or the record has been
    /// revoked.
    pub fn read_secret(&self, location: &Location) -> (result: Result<Buffer, EngineError>)
        requires
            self.wf(),
        ensures
            match result {
                Ok(buffer) => self@.secret(location@) == Ok::<Seq<u8>, EngineError>(buffer@),
                Err(e) => self@.secret(location@) == Err::<Seq<u8>, EngineError>(e),
            },
    {
        match self.vaults.get(location.vault_id().as_slice()) {
            Some(vault) => vault.read(location),
            None => Ok(Buffer::empty()),
        }
    }

    /// Marks the record at `location` as revoked. The record is revoked
    /// whatever `revoke` says; its payload is overwritten and dropped when the
    /// vault is garbage-collected.
    pub fn delete_data(&mut self, location: &Location, revoke: bool) -> (result: Result<
        (),
        EngineError,
    >)
        requires
            old(self).wf(),
        ensures
            final(self).wf(),
            final(self)@.store == old(self)@.store,
            match result {
                Ok(()) => {
                    &&& old(self)@.vault_exists(location@)
                    &&& old(self)@.vaults[location@.vault_id()].slot_of(location@) matches Some(i)
                    &&& final(self)@.vaults == old(self)@.vaults.insert(
                        location@.vault_id(),
                        old(self)@.vaults[location@.vault_id()].revoked_at(i),
                    )
                },
                Err(e) => {
                    &&& final(self)@ == old(self)@
                    &&& if old(self)@.vault_exists(location@) {
                        &&& old(self)@.vaults[location@.vault_id()].slot_of(location@) is None
                        &&& e == EngineError::RecordNotFound
                    } else {
                        e == EngineError::VaultNotFound
                    }
                },
            },
    {
        let id = location.vault_id();
        let mut vault = match self.vaults.remove(id.as_slice()) {
            Some(vault) => vault,
            None => {
                assert(self@.vaults =~= old(self)@.vaults);
                return Err(EngineError::VaultNotFound);
            },
        };
        let result = vault.revoke(location);
        self.vaults.insert(id.as_slice(), vault);
        proof {
            let next = self@;
            assert(next.vaults =~= old(self)@.vaults.insert(id@, next.vaults[id@]));
            if result is Err {
                assert(next.vaults =~= old(self)@.vaults);
            }
        }
        result
    }

    /// Drops the revoked records of the vault with the path `vault_path`.
    pub fn garbage_collect(&mut self, vault_path: &[u8]) -> (result: Result<(), EngineError>)
        requires
            old(self).wf(),
        ensures
            final(self).wf(),
            final(self)@.store == old(self)@.store,
            match result {
                Ok(()) => {
                    &&& old(self)@.vaults.dom().contains(derived(vault_path@, vault_path@))
                    &&& final(self)@.vaults == old(self)@.vaults.insert(
                        derived(vault_path@, vault_path@),
                        old(self)@.vaults[derived(vault_path@, vault_path@)].collected(),
                    )
                },
                Err(e) => {
                    &&& !old(self)@.vaults.dom().contains(derived(vault_path@, vault_path@))
                    &&& e == EngineError::VaultNotFound
                    &&& final(self)@ == old(self)@
                },
            },
    {
        let id = crate::ids::Id::load_from_path(vault_path, vault_path);
        let mut vault = match self.vaults.remove(id.as_slice()) {
            Some(vault) => vault,
            None => {
                assert(self@.vaults =~= old(self)@.vaults);
                return Err(EngineError::VaultNotFound);
            },
        };
        vault.garbage_collect();
        self.vaults.insert(id.as_slice(), vault);
        Ok(())
    }

    /// The identifiers and hints of the records of the vault with the path
    /// `vault_path` that have not been revoked, oldest first. The list is
    /// empty where the vault is missing.
    pub fn list_hints_and_ids(&self, vault_path: &[u8]) -> (listing: Vec<(RecordId, RecordHint)>)
        requires
            self.wf(),
        ensures
            ({
                let id = derived(vault_path@, vault_path@);
                let expected = if self@.vaults.dom().contains(id) {
                    self@.vaults[id].listing()
                } else {
                    Seq::empty()
                };
                &&& listing@.len() == expected.len()
                &&& forall|i: int|
                    0 <= i < listing@.len() ==> (#[trigger] listing@[i]).0@ == expected[i].0
                        && listing@[i].1@ == expected[i].1
            }),
    {
        let id = crate::ids::Id::load_from_path(vault_path, vault_path);
        match self.vaults.get(id.as_slice()) {
            Some(vault) => vault.list_hints_and_ids(),
            None => Vec::new(),
        }
    }

    /// Puts `payload` into the store under `location`, to live for `ttl`.
    pub fn write_to_store(&mut self, location: &Location, payload: &[u8], ttl: Option<u64>)
        requires
            old(self).wf(),
        ensures
            final(self).wf(),
            final(self)@.vaults == old(self)@.vaults,
            final(self)@.store == old(self)@.store.insert(
                store_key(location@),
                StoreEntryView { value: payload@, ttl },
            ),
    {
        let key = store_key_of(location);
        self.store.insert(key.as_slice(), StoreEntry { value: copy_of(payload), ttl });
    }

    /// What the store holds for `location`: no bytes where there is no entry.
    pub fn read_from_store(&self, location: &Location) -> (value: Vec<u8>)
        requires
            self.wf(),
        ensures
            value@ == self@.stored(location@),
    {
        let key = store_key_of(location);
        match self.store.get(key.as_slice()) {
            Some(entry) => copy_of(entry.value.as_slice()),
            None => Vec::new(),
        }
    }

    /// The time that the entry of `location` may live: none where there is
    /// no entry or the entry has no limit.
    pub fn ttl_in_store(&self, location: &Location) -> (ttl: Option<u64>)
        requires
            self.wf(),
        ensures
            ttl == if self@.store.dom().contains(store_key(location@)) {
                self@.store[store_key(location@)].ttl
            } else {
                None
            },
    {
        let key = store_key_of(location);
        match self.store.get(key.as_slice()) {
            Some(entry) => entry.ttl,
            None => None,
        }
    }

    /// Takes the entry of `location` out of the store.
    pub fn delete_from_store(&mut self, location: &Location)
        requires
            old(self).wf(),
        ensures
            final(self).wf(),
            final(self)@.vaults == old(self)@.vaults,
            final(self)@.store == old(self)@.store.remove(store_key(location@)),
    {
        let key = store_key_of(location);
        self.store.remove(key.as_slice());
    }
}

impl Entry for ClientState {
    open spec fn valid(&self) -> bool {
        self.wf()
    }

    fn duplicate(&self) -> (copy: Self) {
        ClientState { vaults: self.vaults.duplicate(), store: self.store.duplicate() }
    }
}

} // verus!
