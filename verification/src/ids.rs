//! Identifiers, hints and locations.
//!
//! Clients, vaults and records are known by 24-byte identifiers that are
//! derived from byte-string paths with a keyed hash. Callers name a record by
//! a [`Location`].

use vstd::prelude::*;
use hmac::{Hmac, Mac};
use sha2::Sha512;
use crate::mask::copy_of;
use crate::order::{Rank, compare};

verus! {

/// The length of an identifier and of a hint.
pub const ID_SIZE: usize = 24;

/// The length of a keyed hash.
pub const MAC_SIZE: usize = 64;

/// HMAC-SHA512 of `message` under `key`.
pub uninterp spec fn hmac_sha512(key: Seq<u8>, message: Seq<u8>) -> Seq<u8>;

/// HMAC-SHA512 from the crates `hmac` and `sha2`: `Hmac::<Sha512>` keyed with
/// `key` through `Mac::new_from_slice`, which takes a key of any length, fed
/// `message` and finalized. The code has 64 bytes.
#[verifier::external_body]
fn mac(key: &[u8], message: &[u8]) -> (code: Vec<u8>)
    ensures
        code@ == hmac_sha512(key@, message@),
        code@.len() == MAC_SIZE,
{
    let mut mac = match Hmac::<Sha512>::new_from_slice(key) {
        Ok(mac) => mac,
        Err(_) => return Vec::new(),
    };
    mac.update(message);
    mac.finalize().into_bytes().to_vec()
}

/// The identifier that `data` gets under `path`: the first 24 bytes of the
/// keyed hash of `data` under the key `path`.
pub open spec fn derived(data: Seq<u8>, path: Seq<u8>) -> Seq<u8> {
    hmac_sha512(path, data).take(ID_SIZE as int)
}

/// A 24-byte identifier. Two identifiers are the same if their bytes are.
#[derive(Clone, Copy, Debug, PartialEq, Eq)]
pub struct Id {
    pub bytes: [u8; 24],
}

/// The identifier of a client.
pub type ClientId = Id;

/// The identifier of a vault, within a client.
pub type VaultId = Id;

/// The identifier of a record, within a vault.
pub type RecordId = Id;

impl View for Id {
    type V = Seq<u8>;

    open spec fn view(&self) -> Seq<u8> {
        self.bytes@
    }
}

/// An array of the first 24 bytes of `bytes`, filled up with zeros.
fn pad(bytes: &[u8]) -> (array: [u8; 24])
    ensures
        forall|i: int| 0 <= i < 24 ==> array@[i] == if i < bytes@.len() { bytes@[i] } else { 0u8 },
{
    let mut array = [0u8; 24];
    assert forall|j: int| 0 <= j < 24 implies array@[j] == 0u8 by {
        vstd::array::axiom_spec_array_fill_for_copy_type::<u8, 24>(0u8);
    }
    let mut i: usize = 0;
    while i < 24 && i < bytes.len()
        invariant
            i <= 24,
            i <= bytes@.len(),
            forall|j: int| 0 <= j < i ==> array@[j] == bytes@[j],
            forall|j: int| i <= j < 24 ==> array@[j] == 0u8,
        decreases 24 - i,
    {
        array[i] = bytes[i];
        i += 1;
    }
    array
}

impl Id {
    /// Derives the identifier of `data` under `path`.
    pub fn load_from_path(data: &[u8], path: &[u8]) -> (id: Id)
        ensures
            id@ == derived(data@, path@),
    {
        let code = mac(path, data);
        let id = Id { bytes: pad(code.as_slice()) };
        assert(id@ =~= derived(data@, path@));
        id
    }

    /// The identifier with these bytes. Another number of bytes than 24 is
    /// refused.
    pub fn from_slice(bytes: &[u8]) -> (id: Option<Id>)
        ensures
            match id {
                Some(id) => bytes@.len() == ID_SIZE && id@ == bytes@,
                None => bytes@.len() != ID_SIZE,
            },
    {
        if bytes.len() != ID_SIZE {
            return None;
        }
        let id = Id { bytes: pad(bytes) };
        assert(id@ =~= bytes@);
        Some(id)
    }

    /// The bytes of the identifier.
    pub fn as_slice(&self) -> (bytes: &[u8])
        ensures
            bytes@ == self@,
            bytes@.len() == ID_SIZE,
    {
        self.bytes.as_slice()
    }

    /// Whether two identifiers are the same.
    pub fn same(&self, other: &Id) -> (yes: bool)
        ensures
            yes == (self@ == other@),
    {
        matches!(compare(self.as_slice(), other.as_slice()), Rank::Same)
    }
}

/// A tag of 24 bytes that the caller gives to a record. It is handed back in
/// listings and is no secret.
#[derive(Clone, Copy, Debug, PartialEq, Eq)]
pub struct RecordHint {
    pub bytes: [u8; 24],
}

impl View for RecordHint {
    type V = Seq<u8>;

    open spec fn view(&self) -> Seq<u8> {
        self.bytes@
    }
}

/// `bytes` filled up with zeros to 24 bytes.
pub open spec fn padded(bytes: Seq<u8>) -> Seq<u8> {
    Seq::new(ID_SIZE as nat, |i: int| if i < bytes.len() { bytes[i] } else { 0u8 })
}

impl RecordHint {
    /// A hint of up to 24 bytes, filled up with zeros. More bytes are refused.
    pub fn new(bytes: &[u8]) -> (hint: Option<RecordHint>)
        ensures
            match hint {
                Some(hint) => bytes@.len() <= ID_SIZE && hint@ == padded(bytes@),
                None => bytes@.len() > ID_SIZE,
            },
    {
        if bytes.len() > ID_SIZE {
            return None;
        }
        let hint = RecordHint { bytes: pad(bytes) };
        assert(hint@ =~= padded(bytes@));
        Some(hint)
    }

    /// The hint with these bytes. Another number of bytes than 24 is refused.
    pub fn from_slice(bytes: &[u8]) -> (hint: Option<RecordHint>)
        ensures
            match hint {
                Some(hint) => bytes@.len() == ID_SIZE && hint@ == bytes@,
                None => bytes@.len() != ID_SIZE,
            },
    {
        if bytes.len() != ID_SIZE {
            return None;
        }
        let hint = RecordHint { bytes: pad(bytes) };
        assert(hint@ =~= bytes@);
        Some(hint)
    }

    /// The bytes of the hint.
    pub fn as_slice(&self) -> (bytes: &[u8])
        ensures
            bytes@ == self@,
            bytes@.len() == ID_SIZE,
    {
        self.bytes.as_slice()
    }
}

/// The handle by which callers name a record.
#[derive(Debug, PartialEq, Eq)]
pub enum Location {
    /// The record with this path in the vault with this path.
    Generic { vault_path: Vec<u8>, record_path: Vec<u8> },
    /// The record at this position in the vault with this path, counted from
    /// the oldest record; no position stands for the place behind the last.
    Counter { vault_path: Vec<u8>, counter: Option<usize> },
}

/// The mathematical value of a [`Location`].
pub enum LocationView {
    Generic { vault_path: Seq<u8>, record_path: Seq<u8> },
    Counter { vault_path: Seq<u8>, counter: Option<usize> },
}

impl View for Location {
    type V = LocationView;

    open spec fn view(&self) -> LocationView {
        match self {
            Location::Generic { vault_path, record_path } => LocationView::Generic {
                vault_path: vault_path@,
                record_path: record_path@,
            },
            Location::Counter { vault_path, counter } => LocationView::Counter {
                vault_path: vault_path@,
                counter: *counter,
            },
        }
    }
}

impl LocationView {
    /// The path of the vault.
    pub open spec fn vault_path(self) -> Seq<u8> {
        match self {
            LocationView::Generic { vault_path, .. } => vault_path,
            LocationView::Counter { vault_path, .. } => vault_path,
        }
    }

    /// The identifier of the vault: derived from the vault's path under
    /// itself.
    pub open spec fn vault_id(self) -> Seq<u8> {
        derived(self.vault_path(), self.vault_path())
    }
}

impl Location {
    /// A location by vault path and record path.
    pub fn generic(vault_path: &[u8], record_path: &[u8]) -> (location: Location)
        ensures
            location@ == (LocationView::Generic {
                vault_path: vault_path@,
                record_path: record_path@,
            }),
    {
        Location::Generic { vault_path: copy_of(vault_path), record_path: copy_of(record_path) }
    }

    /// A location by vault path and position.
    pub fn counter(vault_path: &[u8], counter: Option<usize>) -> (location: Location)
        ensures
            location@ == (LocationView::Counter { vault_path: vault_path@, counter }),
    {
        Location::Counter { vault_path: copy_of(vault_path), counter }
    }

    /// A copy of the location.
    pub fn duplicate(&self) -> (copy: Location)
        ensures
            copy@ == self@,
    {
        match self {
            Location::Generic { vault_path, record_path } => Location::Generic {
                vault_path: copy_of(vault_path.as_slice()),
                record_path: copy_of(record_path.as_slice()),
            },
            Location::Counter { vault_path, counter } => Location::Counter {
                vault_path: copy_of(vault_path.as_slice()),
                counter: *counter,
            },
        }
    }

    /// The path of the vault.
    pub fn vault_path(&self) -> (path: &[u8])
        ensures
            path@ == self@.vault_path(),
    {
        match self {
            Location::Generic { vault_path, .. } => vault_path.as_slice(),
            Location::Counter { vault_path, .. } => vault_path.as_slice(),
        }
    }

    /// The identifier of the vault.
    pub fn vault_id(&self) -> (id: VaultId)
        ensures
            id@ == self@.vault_id(),
    {
        Id::load_from_path(self.vault_path(), self.vault_path())
    }
}

} // verus!
