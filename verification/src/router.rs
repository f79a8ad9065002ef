//! The router: the clients that are alive, and the one that operations go to.

use vstd::prelude::*;
use crate::buffer::Buffer;
use crate::cipher::{KEY_SIZE, MESSAGE_LIMIT};
use crate::client::{ClientState, ClientStateView, store_key, StoreEntryView};
use crate::error::EngineError;
use crate::ids::{ClientId, Id, Location, LocationView, RecordHint, RecordId, derived};
use crate::order::{ascending, precedes};
use crate::snapshot::{encoded_table, read_snapshot_state, snapshot_state, write_snapshot};
use crate::table::{Entry, Table, entries, slot};

verus! {

/// Where a client stands.
#[derive(Clone, Copy, PartialEq, Eq, Structural, Debug)]
pub enum Phase {
    /// The client has been spawned and has neither written to a vault nor
    /// been loaded from a snapshot.
    Uninitialised,
    /// The client takes every operation.
    Active,
    /// The client is gone.
    Killed,
}

/// The mathematical value of a [`Client`].
pub struct ClientView {
    /// The vaults and the store.
    pub state: ClientStateView,
    /// Whether the client has written to a vault or been loaded.
    pub active: bool,
}

/// A client that is alive.
pub struct Client {
    state: ClientState,
    active: bool,
}

impl View for Client {
    type V = ClientView;

    closed spec fn view(&self) -> ClientView {
        ClientView { state: self.state@, active: self.active }
    }
}

impl Entry for Client {
    closed spec fn valid(&self) -> bool {
        self.state.wf()
    }

    fn duplicate(&self) -> (copy: Self) {
        Client { state: self.state.duplicate(), active: self.active }
    }
}

/// The identifier of the client with the path `client_path`: derived from the
/// path under itself.
pub open spec fn client_id(client_path: Seq<u8>) -> Seq<u8> {
    derived(client_path, client_path)
}

/// The state of a client.
pub open spec fn state_of(client: ClientView) -> ClientStateView {
    client.state
}

/// The mathematical value of a [`Router`].
pub struct RouterView {
    /// The clients that are alive, by identifier.
    pub clients: Map<Seq<u8>, ClientView>,
    /// The client that operations go to.
    pub target: Seq<u8>,
    /// The states that were put aside for the next snapshot, by client.
    pub snapshot: Map<Seq<u8>, ClientStateView>,
}

impl RouterView {
    /// Whether the client that operations go to is alive.
    pub open spec fn targeted(self) -> bool {
        self.clients.dom().contains(self.target)
    }

    /// Where the client with the identifier `client` stands.
    pub open spec fn phase_of(self, client: Seq<u8>) -> Phase {
        if !self.clients.dom().contains(client) {
            Phase::Killed
        } else if self.clients[client].active {
            Phase::Active
        } else {
            Phase::Uninitialised
        }
    }

    /// What a read of `location` gives to a caller that names `client`: the
    /// secret, if `client` is the client that operations go to and is alive;
    /// else nothing.
    pub open spec fn secret(self, client: Seq<u8>, location: LocationView) -> Result<
        Seq<u8>,
        EngineError,
    > {
        if client == self.target && self.targeted() {
            self.clients[client].state.secret(location)
        } else {
            Ok(Seq::empty())
        }
    }

    /// Whether the vault of `location` is there for the client that
    /// operations go to.
    pub open spec fn vault_exists(self, location: LocationView) -> bool {
        self.targeted() && self.clients[self.target].state.vault_exists(location)
    }

    /// Whether `location` names a record, not revoked, of the client that
    /// operations go to.
    pub open spec fn record_exists(self, location: LocationView) -> bool {
        self.targeted() && self.clients[self.target].state.record_exists(location)
    }

    /// What the store of the client that operations go to holds for
    /// `location`.
    pub open spec fn stored(self, location: LocationView) -> Seq<u8> {
        if self.targeted() {
            self.clients[self.target].state.stored(location)
        } else {
            Seq::empty()
        }
    }

    /// The router with `state` in the place of the state of the client that
    /// operations go to.
    pub open spec fn with_state(self, state: ClientStateView, active: bool) -> RouterView {
        RouterView { clients: self.clients.insert(self.target, ClientView { state, active }), ..self }
    }

    /// Whether `next` is the router after `payload` was written to
    /// `location` with `hint`: the client that operations go to has taken the
    /// write and is active; every other client is as it was.
    pub open spec fn writes(
        self,
        location: LocationView,
        payload: Seq<u8>,
        hint: Seq<u8>,
        next: RouterView,
    ) -> bool {
        &&& self.targeted()
        &&& next.targeted()
        &&& next == self.with_state(next.clients[self.target].state, true)
        &&& self.clients[self.target].state.writes(
            location,
            payload,
            hint,
            next.clients[self.target].state,
        )
    }

    /// The router after the client `client` was killed: it is no longer
    /// alive. Its state is put aside for the next snapshot if it is to
    /// persist; else nothing of it is left.
    pub open spec fn killed(self, client: Seq<u8>, persist: bool) -> RouterView {
        RouterView {
            clients: self.clients.remove(client),
            snapshot: if persist {
                self.snapshot.insert(client, self.clients[client].state)
            } else {
                self.snapshot.remove(client)
            },
            ..self
        }
    }

    /// The state that a snapshot of the router holds: the states that were
    /// put aside, and the states of the clients that are alive.
    pub open spec fn persisted(self) -> Map<Seq<u8>, ClientStateView> {
        self.snapshot.union_prefer_right(self.clients.map_values(|client: ClientView| state_of(client)))
    }

    /// The router after the state of a snapshot was loaded: what the snapshot
    /// holds for `former` is the state of `target`, which is active; `former`
    /// itself, if it is another client, is no longer alive; and the state of
    /// the snapshot is put aside, behind what was put aside already.
    pub open spec fn loaded(
        self,
        target: Seq<u8>,
        former: Seq<u8>,
        state: Map<Seq<u8>, ClientStateView>,
    ) -> RouterView {
        RouterView {
            clients: self.clients.remove(former).insert(
                target,
                ClientView { state: state[former], active: true },
            ),
            snapshot: state.union_prefer_right(self.snapshot),
            ..self
        }
    }
}

/// The router of a custody engine.
pub struct Router {
    clients: Table<Client>,
    target: ClientId,
    snapshot: Table<ClientState>,
}

impl View for Router {
    type V = RouterView;

    closed spec fn view(&self) -> RouterView {
        RouterView { clients: self.clients@, target: self.target@, snapshot: self.snapshot@ }
    }
}

/// The states of the clients of a table are the states of its entries.
proof fn lemma_states(keys: Seq<Seq<u8>>, clients: Seq<ClientView>)
    requires
        keys.len() == clients.len(),
    ensures
        entries(keys, clients.map_values(|client: ClientView| state_of(client))) == entries(
            keys,
            clients,
        ).map_values(|client: ClientView| state_of(client)),
{
    let states = clients.map_values(|client: ClientView| state_of(client));
    let left = entries(keys, states);
    let right = entries(keys, clients).map_values(|client: ClientView| state_of(client));
    assert forall|key: Seq<u8>| left.dom().contains(key) implies left[key] == right[key] by {
        let i = slot(keys, key);
        assert(states[i] == state_of(clients[i]));
    }
    assert(left =~= right);
}

impl Router {
    /// Whether the router is in order: its tables are, and so is every state
    /// that they hold.
    pub closed spec fn wf(&self) -> bool {
        &&& self.clients.wf()
        &&& self.snapshot.wf()
    }

    /// A router with one client, which operations go to.
    pub fn init_stronghold_system(client_path: &[u8]) -> (router: Router)
        ensures
            router.wf(),
            router@ == (RouterView {
                clients: Map::empty().insert(
                    client_id(client_path@),
                    ClientView { state: ClientStateView::empty(), active: false },
                ),
                target: client_id(client_path@),
                snapshot: Map::empty(),
            }),
    {
        let target = Id::load_from_path(client_path, client_path);
        let mut clients: Table<Client> = Table::new();
        clients.insert(target.as_slice(), Client { state: ClientState::new(), active: false });
        Router { clients, target, snapshot: Table::new() }
    }

    /// The identifier of the client that operations go to.
    pub fn target(&self) -> (target: ClientId)
        ensures
            target@ == self@.target,
    {
        self.target
    }

    /// Where the client with the path `client_path` stands.
    pub fn phase_of(&self, client_path: &[u8]) -> (phase: Phase)
        requires
            self.wf(),
        ensures
            phase == self@.phase_of(client_id(client_path@)),
    {
        let id = Id::load_from_path(client_path, client_path);
        match self.clients.get(id.as_slice()) {
            Some(client) => {
                if client.active {
                    Phase::Active
                } else {
                    Phase::Uninitialised
                }
            },
            None => Phase::Killed,
        }
    }

    /// Makes a new client with the path `client_path`. A client that is alive
    /// already is not replaced.
    pub fn spawn_stronghold_actor(&mut self, client_path: &[u8]) -> (result: Result<
        (),
        EngineError,
    >)
        requires
            old(self).wf(),
        ensures
            final(self).wf(),
            match result {
                Ok(()) => {
                    &&& !old(self)@.clients.dom().contains(client_id(client_path@))
                    &&& final(self)@ == (RouterView {
                        clients: old(self)@.clients.insert(
                            client_id(client_path@),
                            ClientView { state: ClientStateView::empty(), active: false },
                        ),
                        ..old(self)@
                    })
                },
                Err(e) => {
                    &&& old(self)@.clients.dom().contains(client_id(client_path@))
                    &&& e == EngineError::ClientAlreadyExists
                    &&& final(self)@ == old(self)@
                },
            },
    {
        let id = Id::load_from_path(client_path, client_path);
        if self.clients.contains(id.as_slice()) {
            return Err(EngineError::ClientAlreadyExists);
        }
        self.clients.insert(id.as_slice(), Client { state: ClientState::new(), active: false });
        Ok(())
    }

    /// Makes the client with the path `client_path` the one that operations
    /// go to. It has to be alive.
    pub fn switch_actor_target(&mut self, client_path: &[u8]) -> (result: Result<(), EngineError>)
        requires
            old(self).wf(),
        ensures
            final(self).wf(),
            match result {
                Ok(()) => {
                    &&& old(self)@.clients.dom().contains(client_id(client_path@))
                    &&& final(self)@ == (RouterView { target: client_id(client_path@), ..old(self)@ })
                },
                Err(e) => {
                    &&& !old(self)@.clients.dom().contains(client_id(client_path@))
                    &&& e == EngineError::ClientNotFound
                    &&& final(self)@ == old(self)@
                },
            },
    {
        let id = Id::load_from_path(client_path, client_path);
        if !self.clients.contains(id.as_slice()) {
            return Err(EngineError::ClientNotFound);
        }
        self.target = id;
        Ok(())
    }

    /// Kills the client with the path `client_path`. Its state is put aside
    /// for the next snapshot if it is to persist; else it is dropped, and
    /// with it what was put aside for the client before.
    pub fn kill_stronghold(&mut self, client_path: &[u8], persist: bool) -> (result: Result<
        (),
        EngineError,
    >)
        requires
            old(self).wf(),
        ensures
            final(self).wf(),
            match result {
                Ok(()) => {
                    &&& old(self)@.clients.dom().contains(client_id(client_path@))
                    &&& final(self)@ == old(self)@.killed(client_id(client_path@), persist)
                },
                Err(e) => {
                    &&& !old(self)@.clients.dom().contains(client_id(client_path@))
                    &&& e == EngineError::ClientNotFound
                    &&& final(self)@ == old(self)@
                },
            },
    {
        let id = Id::load_from_path(client_path, client_path);
        match self.clients.remove(id.as_slice()) {
            Some(client) => {
                if persist {
                    self.snapshot.insert(id.as_slice(), client.state);
                } else {
                    self.snapshot.remove(id.as_slice());
                }
                Ok(())
            },
            None => {
                assert(self@.clients =~= old(self)@.clients);
                Err(EngineError::ClientNotFound)
            },
        }
    }

    /// Writes `payload` to `location` with `hint`, for the client that
    /// operations go to. The client has to be alive, and the payload short
    /// enough to be encrypted.
    pub fn write_to_vault(&mut self, location: &Location, payload: &[u8], hint: RecordHint) -> (result:
        Result<(), EngineError>)
        requires
            old(self).wf(),
        ensures
            final(self).wf(),
            match result {
                Ok(()) => payload@.len() < MESSAGE_LIMIT && old(self)@.writes(
                    location@,
                    payload@,
                    hint@,
                    final(self)@,
                ),
                Err(e) => {
                    &&& final(self)@ == old(self)@
                    &&& if !old(self)@.targeted() {
                        e == EngineError::ClientNotFound
                    } else {
                        payload@.len() >= MESSAGE_LIMIT && e == EngineError::InvalidArgument
                    }
                },
            },
    {
        let target = self.target;
        let mut client = match self.clients.remove(target.as_slice()) {
            Some(client) => client,
            None => {
                assert(self@.clients =~= old(self)@.clients);
                return Err(EngineError::ClientNotFound);
            },
        };
        let result = client.state.write_to_vault(location, payload, hint);
        if result.is_ok() {
            client.active = true;
        }
        self.clients.insert(target.as_slice(), client);
        proof {
            if result is Err {
                assert(self@.clients =~= old(self)@.clients);
            } else {
                assert(self@.clients =~= old(self)@.clients.insert(
                    target@,
                    self@.clients[target@],
                ));
            }
        }
        result
    }

    /// Reads the secret at `location` into a buffer, for a caller that names
    /// the client with the path `client_path`. The buffer is empty unless
    /// that client is the one that operations go to, is alive, and has a
    /// record there that has not been revoked.
    pub fn read_secret(&self, client_path: &[u8], location: &Location) -> (result: Result<
        Buffer,
        EngineError,
    >)
        requires
            self.wf(),
        ensures
            match result {
                Ok(buffer) => self@.secret(client_id(client_path@), location@) == Ok::<
                    Seq<u8>,
                    EngineError,
                >(buffer@),
                Err(e) => self@.secret(client_id(client_path@), location@) == Err::<
                    Seq<u8>,
                    EngineError,
                >(e),
            },
    {
        let id = Id::load_from_path(client_path, client_path);
        if !id.same(&self.target) {
            return Ok(Buffer::empty());
        }
        match self.clients.get(id.as_slice()) {
            Some(client) => client.state.read_secret(location),
            None => Ok(Buffer::empty()),
        }
    }

    /// Reads the secret at `location` into a buffer, for the client that
    /// operations go to.
    pub fn read_for_target(&self, location: &Location) -> (result: Result<Buffer, EngineError>)
        requires
            self.wf(),
        ensures
            match result {
                Ok(buffer) => self@.secret(self@.target, location@) == Ok::<Seq<u8>, EngineError>(
                    buffer@,
                ),
                Err(e) => self@.secret(self@.target, location@) == Err::<Seq<u8>, EngineError>(e),
            },
    {
        match self.clients.get(self.target.as_slice()) {
            Some(client) => client.state.read_secret(location),
            None => Ok(Buffer::empty()),
        }
    }

    /// Whether the client that operations go to is alive.
    pub fn targeted(&self) -> (yes: bool)
        requires
            self.wf(),
        ensures
            yes == self@.targeted(),
    {
        self.clients.contains(self.target.as_slice())
    }

    /// Whether the vault of `location` is there for the client that
    /// operations go to.
    pub fn vault_exists(&self, location: &Location) -> (yes: bool)
        requires
            self.wf(),
        ensures
            yes == self@.vault_exists(location@),
    {
        match self.clients.get(self.target.as_slice()) {
            Some(client) => client.state.vault_exists(location),
            None => false,
        }
    }

    /// Whether `location` names a record, not revoked, of the client that
    /// operations go to.
    pub fn record_exists(&self, location: &Location) -> (yes: bool)
        requires
            self.wf(),
        ensures
            yes == self@.record_exists(location@),
    {
        match self.clients.get(self.target.as_slice()) {
            Some(client) => client.state.record_exists(location),
            None => false,
        }
    }

    /// Marks the record at `location` as revoked, for the client that
    /// operations go to.
    pub fn delete_data(&mut self, location: &Location, revoke: bool) -> (result: Result<
        (),
        EngineError,
    >)
        requires
            old(self).wf(),
        ensures
            final(self).wf(),
            match result {
                Ok(()) => {
                    let state = old(self)@.clients[old(self)@.target].state;
                    let vault = location@.vault_id();
                    &&& old(self)@.targeted()
                    &&& state.vault_exists(location@)
                    &&& state.vaults[vault].slot_of(location@) matches Some(i)
                    &&& final(self)@ == old(self)@.with_state(
                        ClientStateView {
                            vaults: state.vaults.insert(vault, state.vaults[vault].revoked_at(i)),
                            ..state
                        },
                        old(self)@.clients[old(self)@.target].active,
                    )
                },
                Err(e) => {
                    &&& final(self)@ == old(self)@
                    &&& if !old(self)@.targeted() {
                        e == EngineError::ClientNotFound
                    } else if !old(self)@.vault_exists(location@) {
                        e == EngineError::VaultNotFound
                    } else {
                        e == EngineError::RecordNotFound && !old(self)@.record_exists(location@)
                    }
                },
            },
    {
        let target = self.target;
        let mut client = match self.clients.remove(target.as_slice()) {
            Some(client) => client,
            None => {
                assert(self@.clients =~= old(self)@.clients);
                return Err(EngineError::ClientNotFound);
            },
        };
        let result = client.state.delete_data(location, revoke);
        self.clients.insert(target.as_slice(), client);
        proof {
            if result is Err {
                assert(self@.clients =~= old(self)@.clients);
            } else {
                let state = old(self)@.clients[target@].state;
                assert(self@.clients =~= old(self)@.clients.insert(
                    target@,
                    self@.clients[target@],
                ));
                assert(self@.clients[target@].state == (ClientStateView {
                    vaults: self@.clients[target@].state.vaults,
                    ..state
                }));
            }
        }
        result
    }

    /// Drops the revoked records of the vault with the path `vault_path`, for
    /// the client that operations go to.
    pub fn garbage_collect(&mut self, vault_path: &[u8]) -> (result: Result<(), EngineError>)
        requires
            old(self).wf(),
        ensures
            final(self).wf(),
            match result {
                Ok(()) => {
                    let state = old(self)@.clients[old(self)@.target].state;
                    let vault = derived(vault_path@, vault_path@);
                    &&& old(self)@.targeted()
                    &&& state.vaults.dom().contains(vault)
                    &&& final(self)@ == old(self)@.with_state(
                        ClientStateView {
                            vaults: state.vaults.insert(vault, state.vaults[vault].collected()),
                            ..state
                        },
                        old(self)@.clients[old(self)@.target].active,
                    )
                },
                Err(e) => {
                    &&& final(self)@ == old(self)@
                    &&& if !old(self)@.targeted() {
                        e == EngineError::ClientNotFound
                    } else {
                        &&& e == EngineError::VaultNotFound
                        &&& !old(self)@.clients[old(self)@.target].state.vaults.dom().contains(
                            derived(vault_path@, vault_path@),
                        )
                    }
                },
            },
    {
        let target = self.target;
        let mut client = match self.clients.remove(target.as_slice()) {
            Some(client) => client,
            None => {
                assert(self@.clients =~= old(self)@.clients);
                return Err(EngineError::ClientNotFound);
            },
        };
        let result = client.state.garbage_collect(vault_path);
        self.clients.insert(target.as_slice(), client);
        proof {
            if result is Err {
                assert(self@.clients =~= old(self)@.clients);
            } else {
                let state = old(self)@.clients[target@].state;
                assert(self@.clients =~= old(self)@.clients.insert(
                    target@,
                    self@.clients[target@],
                ));
                assert(self@.clients[target@].state == (ClientStateView {
                    vaults: self@.clients[target@].state.vaults,
                    ..state
                }));
            }
        }
        result
    }

    /// The identifiers and hints of the records, not revoked, of the vault
    /// with the path `vault_path`, oldest first, for the client that
    /// operations go to. The list is empty where the client or the vault is
    /// missing.
    pub fn list_hints_and_ids(&self, vault_path: &[u8]) -> (listing: Vec<(RecordId, RecordHint)>)
        requires
            self.wf(),
        ensures
            ({
                let id = derived(vault_path@, vault_path@);
                let expected = if self@.targeted() && self@.clients[self@.target].state.vaults.dom().contains(
                    id,
                ) {
                    self@.clients[self@.target].state.vaults[id].listing()
                } else {
                    Seq::empty()
                };
                &&& listing@.len() == expected.len()
                &&& forall|i: int|
                    0 <= i < listing@.len() ==> (#[trigger] listing@[i]).0@ == expected[i].0
                        && listing@[i].1@ == expected[i].1
            }),
    {
        match self.clients.get(self.target.as_slice()) {
            Some(client) => client.state.list_hints_and_ids(vault_path),
            None => Vec::new(),
        }
    }

    /// Puts `payload` into the store of the client that operations go to,
    /// under `location`, to live for `ttl`.
    pub fn write_to_store(&mut self, location: &Location, payload: &[u8], ttl: Option<u64>) -> (result:
        Result<(), EngineError>)
        requires
            old(self).wf(),
        ensures
            final(self).wf(),
            match result {
                Ok(()) => {
                    let client = old(self)@.clients[old(self)@.target];
                    &&& old(self)@.targeted()
                    &&& final(self)@ == old(self)@.with_state(
                        ClientStateView {
                            store: client.state.store.insert(
                                store_key(location@),
                                StoreEntryView { value: payload@, ttl },
                            ),
                            ..client.state
                        },
                        client.active,
                    )
                },
                Err(e) => {
                    &&& !old(self)@.targeted()
                    &&& e == EngineError::ClientNotFound
                    &&& final(self)@ == old(self)@
                },
            },
    {
        let target = self.target;
        let mut client = match self.clients.remove(target.as_slice()) {
            Some(client) => client,
            None => {
                assert(self@.clients =~= old(self)@.clients);
                return Err(EngineError::ClientNotFound);
            },
        };
        client.state.write_to_store(location, payload, ttl);
        self.clients.insert(target.as_slice(), client);
        proof {
            let state = old(self)@.clients[target@].state;
            assert(self@.clients =~= old(self)@.clients.insert(target@, self@.clients[target@]));
            assert(self@.clients[target@].state == (ClientStateView {
                store: self@.clients[target@].state.store,
                ..state
            }));
        }
        Ok(())
    }

    /// What the store of the client that operations go to holds for
    /// `location`: no bytes where there is no entry or the client is missing.
    pub fn read_from_store(&self, location: &Location) -> (value: Vec<u8>)
        requires
            self.wf(),
        ensures
            value@ == self@.stored(location@),
    {
        match self.clients.get(self.target.as_slice()) {
            Some(client) => client.state.read_from_store(location),
            None => Vec::new(),
        }
    }

    /// Takes the entry of `location` out of the store of the client that
    /// operations go to.
    pub fn delete_from_store(&mut self, location: &Location) -> (result: Result<(), EngineError>)
        requires
            old(self).wf(),
        ensures
            final(self).wf(),
            match result {
                Ok(()) => {
                    let client = old(self)@.clients[old(self)@.target];
                    &&& old(self)@.targeted()
                    &&& final(self)@ == old(self)@.with_state(
                        ClientStateView {
                            store: client.state.store.remove(store_key(location@)),
                            ..client.state
                        },
                        client.active,
                    )
                },
                Err(e) => {
                    &&& !old(self)@.targeted()
                    &&& e == EngineError::ClientNotFound
                    &&& final(self)@ == old(self)@
                },
            },
    {
        let target = self.target;
        let mut client = match self.clients.remove(target.as_slice()) {
            Some(client) => client,
            None => {
                assert(self@.clients =~= old(self)@.clients);
                return Err(EngineError::ClientNotFound);
            },
        };
        client.state.delete_from_store(location);
        self.clients.insert(target.as_slice(), client);
        proof {
            let state = old(self)@.clients[target@].state;
            assert(self@.clients =~= old(self)@.clients.insert(target@, self@.clients[target@]));
            assert(self@.clients[target@].state == (ClientStateView {
                store: self@.clients[target@].state.store,
                ..state
            }));
        }
        Ok(())
    }

    /// The states of the clients that are alive.
    fn live_states(&self) -> (states: Table<ClientState>)
        requires
            self.wf(),
        ensures
            states.wf(),
            states@ == self@.clients.map_values(|client: ClientView| state_of(client)),
    {
        let mut states: Table<ClientState> = Table::new();
        let mut i: usize = 0;
        proof {
            self.clients.lemma_view();
            assert(self.clients.keys().take(0) =~= states.keys());
            assert(self.clients.values().take(0).map_values(|client: ClientView| state_of(client))
                =~= states.values());
        }
        while i < self.clients.len()
            invariant
                self.wf(),
                states.wf(),
                i <= self.clients.keys().len(),
                self.clients.keys().len() == self.clients.values().len(),
                ascending(self.clients.keys()),
                states.keys() == self.clients.keys().take(i as int),
                states.values() == self.clients.values().take(i as int).map_values(
                    |client: ClientView| state_of(client),
                ),
            decreases self.clients.keys().len() - i,
        {
            proof {
                if i > 0 {
                    assert(states.keys().last() == self.clients.keys()[i - 1]);
                    assert(precedes(self.clients.keys()[i - 1], self.clients.keys()[i as int]));
                }
            }
            let client = self.clients.value_at(i);
            states.push_last(self.clients.key_at(i), client.state.duplicate());
            proof {
                assert(self.clients.keys().take(i + 1) =~= self.clients.keys().take(i as int).push(
                    self.clients.keys()[i as int],
                ));
                assert(self.clients.values().take(i + 1).map_values(
                    |client: ClientView| state_of(client),
                ) =~= self.clients.values().take(i as int).map_values(
                    |client: ClientView| state_of(client),
                ).push(state_of(self.clients.values()[i as int])));
            }
            i += 1;
        }
        proof {
            assert(self.clients.keys().take(i as int) =~= self.clients.keys());
            assert(self.clients.values().take(i as int) =~= self.clients.values());
            states.lemma_view();
            lemma_states(self.clients.keys(), self.clients.values());
        }
        states
    }

    /// Gathers the state for a snapshot: what was put aside, and the states
    /// of the clients that are alive.
    pub fn persisted(&self) -> (state: Table<ClientState>)
        requires
            self.wf(),
        ensures
            state.wf(),
            state@ == self@.persisted(),
    {
        let live = self.live_states();
        let mut state = self.snapshot.duplicate();
        state.absorb(&live);
        state
    }

    /// Writes the state of the router as a snapshot file under `key`: the
    /// bytes are handed back for the caller to store, and the state that they
    /// hold is put aside. A key of another length than 32 bytes, or a state
    /// too large to be encrypted, is refused, and nothing is changed.
    pub fn write_all_to_snapshot(&mut self, key: &[u8]) -> (result: Result<Vec<u8>, EngineError>)
        requires
            old(self).wf(),
        ensures
            final(self).wf(),
            match result {
                Ok(bytes) => {
                    &&& key@.len() == KEY_SIZE
                    &&& snapshot_state(key@, bytes@) == Ok::<
                        Map<Seq<u8>, ClientStateView>,
                        EngineError,
                    >(old(self)@.persisted())
                    &&& final(self)@ == (RouterView {
                        snapshot: old(self)@.persisted(),
                        ..old(self)@
                    })
                },
                Err(e) => {
                    &&& e == EngineError::InvalidArgument
                    &&& key@.len() != KEY_SIZE || encoded_table::<ClientState>(
                        old(self)@.persisted(),
                    ).len() >= MESSAGE_LIMIT
                    &&& final(self)@ == old(self)@
                },
            },
    {
        let state = self.persisted();
        match write_snapshot(&state, key) {
            Ok(bytes) => {
                self.snapshot = state;
                Ok(bytes)
            },
            Err(e) => Err(e),
        }
    }

    /// Reads a snapshot file under `key` and loads it: what the snapshot
    /// holds for the client with the path `former_client`, or for the target
    /// where no former client is named, becomes the state of the client with
    /// the path `target_client`. Where the file cannot be read or does not
    /// know the client, nothing is changed.
    pub fn read_snapshot(
        &mut self,
        target_client: &[u8],
        former_client: Option<&[u8]>,
        key: &[u8],
        bytes: &[u8],
    ) -> (result: Result<(), EngineError>)
        requires
            old(self).wf(),
        ensures
            final(self).wf(),
            ({
                let target = client_id(target_client@);
                let former = match former_client {
                    Some(path) => client_id(path@),
                    None => target,
                };
                match result {
                    Ok(()) => {
                        &&& key@.len() == KEY_SIZE
                        &&& snapshot_state(key@, bytes@) matches Ok(state)
                        &&& state.dom().contains(former)
                        &&& final(self)@ == old(self)@.loaded(target, former, state)
                    },
                    Err(e) => {
                        &&& final(self)@ == old(self)@
                        &&& if key@.len() != KEY_SIZE {
                            e == EngineError::InvalidArgument
                        } else {
                            match snapshot_state(key@, bytes@) {
                                Ok(state) => !state.dom().contains(former) && e
                                    == EngineError::ClientNotFound,
                                Err(cause) => e == cause,
                            }
                        }
                    },
                }
            }),
    {
        let state = match read_snapshot_state(key, bytes) {
            Ok(state) => state,
            Err(e) => {
                return Err(e);
            },
        };
        self.load(target_client, former_client, state)
    }

    /// Loads the state of a snapshot: what it holds for the client with the
    /// path `former_client`, or for the target where no former client is
    /// named, becomes the state of the client with the path `target_client`.
    /// Where the snapshot does not know the client, nothing is changed.
    pub fn load(
        &mut self,
        target_client: &[u8],
        former_client: Option<&[u8]>,
        state: Table<ClientState>,
    ) -> (result: Result<(), EngineError>)
        requires
            old(self).wf(),
            state.wf(),
        ensures
            final(self).wf(),
            ({
                let target = client_id(target_client@);
                let former = match former_client {
                    Some(path) => client_id(path@),
                    None => target,
                };
                match result {
                    Ok(()) => state@.dom().contains(former) && final(self)@ == old(self)@.loaded(
                        target,
                        former,
                        state@,
                    ),
                    Err(e) => !state@.dom().contains(former) && e == EngineError::ClientNotFound
                        && final(self)@ == old(self)@,
                }
            }),
    {
        let target = Id::load_from_path(target_client, target_client);
        let former = match former_client {
            Some(path) => Id::load_from_path(path, path),
            None => target,
        };
        let loaded = match state.get(former.as_slice()) {
            Some(loaded) => loaded.duplicate(),
            None => {
                return Err(EngineError::ClientNotFound);
            },
        };
        self.clients.remove(former.as_slice());
        self.clients.insert(target.as_slice(), Client { state: loaded, active: true });
        let mut aside = state;
        aside.absorb(&self.snapshot);
        self.snapshot = aside;
        Ok(())
    }
}

/// Clients are isolated: a write for the client that operations go to leaves
/// every other client as it was. In particular it makes no vault exist for
/// another client.
pub proof fn law_client_isolation(
    before: RouterView,
    location: LocationView,
    payload: Seq<u8>,
    hint: Seq<u8>,
    after: RouterView,
    other: Seq<u8>,
    probe: LocationView,
)
    requires
        before.writes(location, payload, hint, after),
        other != before.target,
    ensures
        after.clients.dom().contains(other) == before.clients.dom().contains(other),
        before.clients.dom().contains(other) ==> after.clients[other] == before.clients[other],
        (RouterView { target: other, ..after }).vault_exists(probe) == (RouterView {
            target: other,
            ..before
        }).vault_exists(probe),
{
}

/// A client that was killed without persisting leaves no trace: it is not
/// alive, nothing is put aside for it, and whatever location is read or
/// looked up in the store for it, nothing comes back.
pub proof fn law_killed_client_leaves_nothing(
    before: RouterView,
    client: Seq<u8>,
    location: LocationView,
)
    ensures
        ({
            let after = before.killed(client, false);
            let targeting = RouterView { target: client, ..after };
            &&& !after.clients.dom().contains(client)
            &&& !after.snapshot.dom().contains(client)
            &&& !after.persisted().dom().contains(client)
            &&& after.phase_of(client) == Phase::Killed
            &&& targeting.secret(client, location) == Ok::<Seq<u8>, EngineError>(Seq::empty())
            &&& targeting.stored(location) == Seq::<u8>::empty()
            &&& !targeting.vault_exists(location)
        }),
{
}

/// A snapshot restores a client: what is gathered for a snapshot holds the
/// state of every client that is alive, and loading it into any router, be it
/// an empty one, under the same client gives that client the same state.
pub proof fn law_snapshot_restores_client(router: RouterView, blank: RouterView, client: Seq<u8>)
    requires
        router.clients.dom().contains(client),
    ensures
        router.persisted().dom().contains(client),
        router.persisted()[client] == router.clients[client].state,
        blank.loaded(client, client, router.persisted()).clients.dom().contains(client),
        blank.loaded(client, client, router.persisted()).clients[client].state
            == router.clients[client].state,
{
}

/// Loading under another client renames: the state that the snapshot holds for
/// the former client is afterwards the state of the target, so that every
/// record of the former client reads the same under the target; and the former
/// client is not alive, so that nothing reads under it.
pub proof fn law_load_renames(
    router: RouterView,
    target: Seq<u8>,
    former: Seq<u8>,
    state: Map<Seq<u8>, ClientStateView>,
    location: LocationView,
)
    requires
        target != former,
        state.dom().contains(former),
    ensures
        ({
            let after = router.loaded(target, former, state);
            let as_target = RouterView { target, ..after };
            let as_former = RouterView { target: former, ..after };
            &&& as_target.secret(target, location) == state[former].secret(location)
            &&& as_target.vault_exists(location) == state[former].vault_exists(location)
            &&& !after.clients.dom().contains(former)
            &&& as_former.secret(former, location) == Ok::<Seq<u8>, EngineError>(Seq::empty())
            &&& !as_former.vault_exists(location)
        }),
{
}

} // verus!
