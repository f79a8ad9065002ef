//! Merging the states of two snapshots.
//!
//! The first state is the base that is being synchronised: where both states
//! know a client, the base's view of the client stays, and only the vaults that
//! the base lacks are taken over from the other state.

use vstd::prelude::*;
use crate::cipher::{KEY_SIZE, MESSAGE_LIMIT};
use crate::client::{ClientState, ClientStateView};
use crate::error::EngineError;
use crate::order::{Rank, compare};
use crate::snapshot::{encoded_table, read_snapshot_state, snapshot_state, write_snapshot};
use crate::ids::ClientId;
use crate::order::{ascending, precedes};
use crate::table::{Entry, Table, entries, lemma_insert};

verus! {

/// The state of a client that both snapshots know: the store of the base, and
/// the vaults of both, the base's where both have one.
pub open spec fn merged_client(base: ClientStateView, other: ClientStateView) -> ClientStateView {
    ClientStateView { vaults: other.vaults.union_prefer_right(base.vaults), store: base.store }
}

/// The merge of two snapshot states: every client of either; a client of one
/// state only as it is there, a client of both as [`merged_client`] says.
pub open spec fn merged(
    base: Map<Seq<u8>, ClientStateView>,
    other: Map<Seq<u8>, ClientStateView>,
) -> Map<Seq<u8>, ClientStateView> {
    Map::new(
        |client: Seq<u8>| base.dom().contains(client) || other.dom().contains(client),
        |client: Seq<u8>|
            if base.dom().contains(client) {
                if other.dom().contains(client) {
                    merged_client(base[client], other[client])
                } else {
                    base[client]
                }
            } else {
                other[client]
            },
    )
}

/// The identifiers on an allow-list.
pub open spec fn listed(allow: Seq<ClientId>) -> Set<Seq<u8>> {
    Set::new(|client: Seq<u8>| exists|i: int| 0 <= i < allow.len() && (#[trigger] allow[i])@ == client)
}

/// Merges the states of a client that both snapshots know.
pub fn merge_client(base: &ClientState, other: &ClientState) -> (state: ClientState)
    requires
        base.wf(),
        other.wf(),
    ensures
        state.wf(),
        state@ == merged_client(base@, other@),
{
    let mut vaults = other.vaults().duplicate();
    vaults.absorb(base.vaults());
    ClientState::from_parts(vaults, base.store().duplicate())
}

/// Merges two snapshot states in full.
pub fn merge_full(base: &Table<ClientState>, other: &Table<ClientState>) -> (result: Table<
    ClientState,
>)
    requires
        base.wf(),
        other.wf(),
    ensures
        result.wf(),
        result@ == merged(base@, other@),
{
    let mut result = other.duplicate();
    let mut i: usize = 0;
    proof {
        base.lemma_view();
        assert(entries(base.keys().take(0), base.values().take(0)) =~= Map::<
            Seq<u8>,
            ClientStateView,
        >::empty());
        assert(result@ =~= merged(Map::<Seq<u8>, ClientStateView>::empty(), other@));
    }
    while i < base.len()
        invariant
            base.wf(),
            result.wf(),
            i <= base.keys().len(),
            base.keys().len() == base.values().len(),
            ascending(base.keys()),
            result@ == merged(
                entries(base.keys().take(i as int), base.values().take(i as int)),
                other@,
            ),
        decreases base.keys().len() - i,
    {
        let key = base.key_at(i);
        let ours = base.value_at(i);
        let ghost keys = base.keys().take(i as int);
        let ghost values = base.values().take(i as int);
        proof {
            assert forall|a: int, b: int| 0 <= a < b < keys.len() implies precedes(
                #[trigger] keys[a],
                #[trigger] keys[b],
            ) by {
                assert(precedes(base.keys()[a], base.keys()[b]));
            }
            assert forall|j: int| 0 <= j < i implies precedes(#[trigger] keys[j], key@) by {
                assert(precedes(base.keys()[j], base.keys()[i as int]));
            }
            crate::table::lemma_gap(keys, i as int, key@);
            assert(!entries(keys, values).dom().contains(key@));
        }
        let state = match result.get(key) {
            Some(theirs) => merge_client(ours, theirs),
            None => ours.duplicate(),
        };
        result.insert(key, state);
        proof {
            assert(base.keys().take(i + 1) =~= keys.push(key@));
            assert(base.values().take(i + 1) =~= values.push(ours@));
            assert(keys.insert(i as int, key@) =~= keys.push(key@));
            assert(values.insert(i as int, ours@) =~= values.push(ours@));
            lemma_insert(keys, values, i as int, key@, ours@);
            assert(result@ =~= merged(entries(keys, values).insert(key@, ours@), other@));
        }
        i += 1;
    }
    proof {
        assert(base.keys().take(i as int) =~= base.keys());
        assert(base.values().take(i as int) =~= base.values());
    }
    result
}

/// Whether `client` is on the allow-list.
pub fn is_listed(allow: &[ClientId], client: &[u8]) -> (yes: bool)
    ensures
        yes == listed(allow@).contains(client@),
{
    let mut i: usize = 0;
    while i < allow.len()
        invariant
            i <= allow@.len(),
            forall|j: int| 0 <= j < i ==> (#[trigger] allow@[j])@ != client@,
        decreases allow@.len() - i,
    {
        if matches!(crate::order::compare(allow[i].as_slice(), client), crate::order::Rank::Same) {
            return true;
        }
        i += 1;
    }
    false
}

/// The clients of `state` that are on the allow-list.
pub fn restrict(state: &Table<ClientState>, allow: &[ClientId]) -> (result: Table<ClientState>)
    requires
        state.wf(),
    ensures
        result.wf(),
        result@ == state@.restrict(listed(allow@)),
{
    let mut result: Table<ClientState> = Table::new();
    let mut i: usize = 0;
    let ghost mut last: int = -1;
    proof {
        state.lemma_view();
        assert(entries(state.keys().take(0), state.values().take(0)) =~= Map::<
            Seq<u8>,
            ClientStateView,
        >::empty());
        assert(result@ =~= Map::<Seq<u8>, ClientStateView>::empty().restrict(listed(allow@)));
    }
    while i < state.len()
        invariant
            state.wf(),
            result.wf(),
            i <= state.keys().len(),
            state.keys().len() == state.values().len(),
            ascending(state.keys()),
            -1 <= last < i,
            result.keys().len() > 0 ==> 0 <= last && result.keys().last() == state.keys()[last],
            result@ == entries(state.keys().take(i as int), state.values().take(i as int)).restrict(
                listed(allow@),
            ),
        decreases state.keys().len() - i,
    {
        let key = state.key_at(i);
        let ghost keys = state.keys().take(i as int);
        let ghost values = state.values().take(i as int);
        let ghost value = state.values()[i as int];
        proof {
            assert forall|a: int, b: int| 0 <= a < b < keys.len() implies precedes(
                #[trigger] keys[a],
                #[trigger] keys[b],
            ) by {
                assert(precedes(state.keys()[a], state.keys()[b]));
            }
            assert forall|j: int| 0 <= j < i implies precedes(#[trigger] keys[j], key@) by {
                assert(precedes(state.keys()[j], state.keys()[i as int]));
            }
            assert(state.keys().take(i + 1) =~= keys.push(key@));
            assert(state.values().take(i + 1) =~= values.push(value));
            assert(keys.insert(i as int, key@) =~= keys.push(key@));
            assert(values.insert(i as int, value) =~= values.push(value));
            lemma_insert(keys, values, i as int, key@, value);
        }
        if is_listed(allow, key) {
            proof {
                if result.keys().len() > 0 {
                    assert(precedes(state.keys()[last], state.keys()[i as int]));
                }
            }
            result.push_last(key, state.value_at(i).duplicate());
            proof {
                last = i as int;
                assert(result@ =~= entries(keys, values).insert(key@, value).restrict(
                    listed(allow@),
                ));
            }
        } else {
            proof {
                assert(result@ =~= entries(keys, values).insert(key@, value).restrict(
                    listed(allow@),
                ));
            }
        }
        i += 1;
    }
    proof {
        assert(state.keys().take(i as int) =~= state.keys());
        assert(state.values().take(i as int) =~= state.values());
    }
    result
}

/// Merges two snapshot states, letting only the clients on the allow-list come
/// in from the other state.
pub fn merge_partial(
    base: &Table<ClientState>,
    other: &Table<ClientState>,
    allow: &[ClientId],
) -> (result: Table<ClientState>)
    requires
        base.wf(),
        other.wf(),
    ensures
        result.wf(),
        result@ == merged(base@, other@.restrict(listed(allow@))),
{
    let eligible = restrict(other, allow);
    merge_full(base, &eligible)
}

/// One of the snapshots of a synchronisation: where its file is, the key that
/// it is sealed with, and the bytes of the file.
pub struct Source<'a> {
    pub path: &'a [u8],
    pub key: &'a [u8],
    pub bytes: &'a [u8],
}

/// Whether the three paths of a synchronisation are all different.
pub open spec fn distinct(a: Seq<u8>, b: Seq<u8>, c: Seq<u8>) -> bool {
    a != b && a != c && b != c
}

/// What a synchronisation gives: the state that the destination is to hold;
/// or why there is none. The three paths have to be all different and the
/// keys of 32 bytes, else the arguments are refused; then comes what stands
/// in the way of reading the base, then of reading the other snapshot.
pub open spec fn synchronized(
    base: Source,
    other: Source,
    destination: Seq<u8>,
    destination_key: Seq<u8>,
    allow: Option<Set<Seq<u8>>>,
) -> Result<Map<Seq<u8>, ClientStateView>, EngineError> {
    if !distinct(base.path@, other.path@, destination) || base.key@.len() != KEY_SIZE
        || other.key@.len() != KEY_SIZE || destination_key.len() != KEY_SIZE {
        Err(EngineError::InvalidArgument)
    } else {
        match snapshot_state(base.key@, base.bytes@) {
            Ok(ours) => match snapshot_state(other.key@, other.bytes@) {
                Ok(theirs) => Ok(
                    merged(
                        ours,
                        match allow {
                            Some(allow) => theirs.restrict(allow),
                            None => theirs,
                        },
                    ),
                ),
                Err(e) => Err(e),
            },
            Err(e) => Err(e),
        }
    }
}

fn same_path(a: &[u8], b: &[u8]) -> (yes: bool)
    ensures
        yes == (a@ == b@),
{
    matches!(compare(a, b), Rank::Same)
}

/// Checks that the three paths of a synchronisation are all different, before
/// anything is read.
pub fn check_paths(base: &[u8], other: &[u8], destination: &[u8]) -> (result: Result<
    (),
    EngineError,
>)
    ensures
        match result {
            Ok(()) => distinct(base@, other@, destination@),
            Err(e) => !distinct(base@, other@, destination@) && e == EngineError::InvalidArgument,
        },
{
    if same_path(base, other) || same_path(base, destination) || same_path(other, destination) {
        return Err(EngineError::InvalidArgument);
    }
    Ok(())
}

fn synchronize(
    base: &Source,
    other: &Source,
    destination: &[u8],
    destination_key: &[u8],
    allow: Option<&[ClientId]>,
) -> (result: Result<Vec<u8>, EngineError>)
    ensures
        ({
            let expected = synchronized(
                *base,
                *other,
                destination@,
                destination_key@,
                match allow {
                    Some(allow) => Some(listed(allow@)),
                    None => None,
                },
            );
            match result {
                Ok(bytes) => expected is Ok && snapshot_state(destination_key@, bytes@)
                    == expected,
                Err(e) => match expected {
                    Ok(state) => e == EngineError::InvalidArgument && encoded_table::<ClientState>(
                        state,
                    ).len() >= MESSAGE_LIMIT,
                    Err(cause) => e == cause,
                },
            }
        }),
{
    match check_paths(base.path, other.path, destination) {
        Ok(()) => {},
        Err(e) => {
            return Err(e);
        },
    }
    if base.key.len() != KEY_SIZE || other.key.len() != KEY_SIZE || destination_key.len()
        != KEY_SIZE {
        return Err(EngineError::InvalidArgument);
    }
    let ours = match read_snapshot_state(base.key, base.bytes) {
        Ok(state) => state,
        Err(e) => {
            return Err(e);
        },
    };
    let theirs = match read_snapshot_state(other.key, other.bytes) {
        Ok(state) => state,
        Err(e) => {
            return Err(e);
        },
    };
    let state = match allow {
        Some(allow) => merge_partial(&ours, &theirs, allow),
        None => merge_full(&ours, &theirs),
    };
    write_snapshot(&state, destination_key)
}

/// Merges the snapshot `other` into the snapshot `base` in full and hands back
/// the bytes of the destination snapshot, sealed under `destination_key`.
/// Nothing but the bytes given is read, and nothing is written.
pub fn synchronize_full(
    base: &Source,
    other: &Source,
    destination: &[u8],
    destination_key: &[u8],
) -> (result: Result<Vec<u8>, EngineError>)
    ensures
        ({
            let expected = synchronized(*base, *other, destination@, destination_key@, None);
            match result {
                Ok(bytes) => expected is Ok && snapshot_state(destination_key@, bytes@)
                    == expected,
                Err(e) => match expected {
                    Ok(state) => e == EngineError::InvalidArgument && encoded_table::<ClientState>(
                        state,
                    ).len() >= MESSAGE_LIMIT,
                    Err(cause) => e == cause,
                },
            }
        }),
{
    synchronize(base, other, destination, destination_key, None)
}

/// Merges the snapshot `other` into the snapshot `base`, letting only the
/// clients on the allow-list come in from `other`, and hands back the bytes of
/// the destination snapshot, sealed under `destination_key`.
pub fn synchronize_partial(
    base: &Source,
    other: &Source,
    destination: &[u8],
    destination_key: &[u8],
    allow: &[ClientId],
) -> (result: Result<Vec<u8>, EngineError>)
    ensures
        ({
            let expected = synchronized(
                *base,
                *other,
                destination@,
                destination_key@,
                Some(listed(allow@)),
            );
            match result {
                Ok(bytes) => expected is Ok && snapshot_state(destination_key@, bytes@)
                    == expected,
                Err(e) => match expected {
                    Ok(state) => e == EngineError::InvalidArgument && encoded_table::<ClientState>(
                        state,
                    ).len() >= MESSAGE_LIMIT,
                    Err(cause) => e == cause,
                },
            }
        }),
{
    synchronize(base, other, destination, destination_key, Some(allow))
}

/// What a merge does with each client: a client of the base only is copied, a
/// client of the other state only is copied, a client of both keeps the store
/// and the vaults of the base and gains the vaults that only the other state
/// has.
pub proof fn law_merge_rules(
    base: Map<Seq<u8>, ClientStateView>,
    other: Map<Seq<u8>, ClientStateView>,
    client: Seq<u8>,
    vault: Seq<u8>,
)
    ensures
        merged(base, other).dom().contains(client) <==> base.dom().contains(client)
            || other.dom().contains(client),
        base.dom().contains(client) && !other.dom().contains(client) ==> merged(
            base,
            other,
        )[client] == base[client],
        !base.dom().contains(client) && other.dom().contains(client) ==> merged(
            base,
            other,
        )[client] == other[client],
        base.dom().contains(client) && other.dom().contains(client) ==> {
            let both = merged(base, other)[client];
            &&& both.store == base[client].store
            &&& both.vaults.dom().contains(vault) <==> base[client].vaults.dom().contains(vault)
                || other[client].vaults.dom().contains(vault)
            &&& base[client].vaults.dom().contains(vault) ==> both.vaults[vault]
                == base[client].vaults[vault]
            &&& !base[client].vaults.dom().contains(vault) && other[client].vaults.dom().contains(
                vault,
            ) ==> both.vaults[vault] == other[client].vaults[vault]
        },
{
}

/// A client that is not on the allow-list brings nothing in: unless the base
/// knows it, it is not in the merge; if the base knows it, it is in the merge
/// as the base has it.
pub proof fn law_partial_drops_unlisted(
    base: Map<Seq<u8>, ClientStateView>,
    other: Map<Seq<u8>, ClientStateView>,
    allow: Set<Seq<u8>>,
    client: Seq<u8>,
)
    requires
        !allow.contains(client),
    ensures
        merged(base, other.restrict(allow)).dom().contains(client) <==> base.dom().contains(client),
        base.dom().contains(client) ==> merged(base, other.restrict(allow))[client] == base[client],
{
}

} // verus!
