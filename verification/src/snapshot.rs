//! Snapshots: the state of every client, as bytes.
//!
//! The state is written as nested lists of byte strings (see
//! [`crate::codec`]): a table as the list of its entries in ascending order of
//! their keys, an entry as its key and its value, a value by its fields. What
//! is read back has to be in exactly this form.

use vstd::prelude::*;
use vstd::bytes::{
    lemma_auto_spec_u64_to_from_le_bytes, spec_u64_from_le_bytes, spec_u64_to_le_bytes,
    u64_from_le_bytes, u64_to_le_bytes,
};
use crate::client::{ClientState, ClientStateView, StoreEntry, StoreEntryView};
use crate::codec::{
    fits, lemma_unpack_pack, pack, pack_and_wipe, slices_of, unpack, unpack_items, views_of,
};
use crate::cipher::{KEY_SIZE, MESSAGE_LIMIT, seal, seals, unseal, unsealed};
use crate::error::EngineError;
use crate::ids::{ID_SIZE, Id, RecordHint};
use crate::mask::copy_of;
use crate::wipe::wipe_bytes;
use crate::order::{Rank, ascending, compare, precedes};
use crate::vault::{Record, RecordView, Vault, VaultView};
use crate::table::{Entry, Table, entries, lemma_slot, lists, ordered_keys};

verus! {

/// Whether the length of `bytes` can be written in eight bytes.
pub open spec fn short(bytes: Seq<u8>) -> bool {
    bytes.len() <= u64::MAX
}

/// A value that can be written as bytes and read back.
pub trait Codec: Entry {
    /// Whether the value can be written: every length in it can be written
    /// in eight bytes, and every part has the size that its place asks for.
    spec fn encodable(value: Self::V) -> bool;

    /// The bytes of the value.
    spec fn encoded(value: Self::V) -> Seq<u8>;

    /// The value that `bytes` are the bytes of, if there is one.
    spec fn decoded(bytes: Seq<u8>) -> Option<Self::V>;

    /// What was written is read back.
    proof fn lemma_round_trip(value: Self::V)
        requires
            Self::encodable(value),
        ensures
            Self::decoded(Self::encoded(value)) == Some(value),
    ;

    /// Writes the value as bytes.
    fn encode(&self) -> (bytes: Vec<u8>)
        requires
            self.valid(),
        ensures
            bytes@ == Self::encoded(self@),
            Self::encodable(self@),
    ;

    /// Reads a value from bytes.
    fn decode(bytes: &[u8]) -> (value: Option<Self>)
        ensures
            match value {
                Some(value) => value.valid() && Self::decoded(bytes@) == Some(value@),
                None => Self::decoded(bytes@) is None,
            },
    ;
}

/// The bytes of an entry: its key and the bytes of its value.
pub open spec fn encoded_entry<V: Codec>(key: Seq<u8>, value: V::V) -> Seq<u8> {
    pack(seq![key, V::encoded(value)])
}

/// The entry that `bytes` are the bytes of, if there is one.
pub open spec fn decoded_entry<V: Codec>(bytes: Seq<u8>) -> Option<(Seq<u8>, V::V)> {
    match unpack(bytes) {
        Some(fields) => if fields.len() == 2 {
            match V::decoded(fields[1]) {
                Some(value) => Some((fields[0], value)),
                None => None,
            }
        } else {
            None
        },
        None => None,
    }
}

/// The bytes of the entries of a table, in ascending order of the keys.
pub open spec fn table_items<V: Codec>(map: Map<Seq<u8>, V::V>) -> Seq<Seq<u8>> {
    let keys = ordered_keys(map);
    Seq::new(keys.len(), |i: int| encoded_entry::<V>(keys[i], map[keys[i]]))
}

/// The bytes of a table.
pub open spec fn encoded_table<V: Codec>(map: Map<Seq<u8>, V::V>) -> Seq<u8> {
    pack(table_items::<V>(map))
}

/// Whether a table can be written: it has finitely many keys, and every entry
/// can be written.
pub open spec fn table_encodable<V: Codec>(map: Map<Seq<u8>, V::V>) -> bool {
    &&& lists(ordered_keys(map), map)
    &&& forall|key: Seq<u8>| #[trigger]
        map.dom().contains(key) ==> {
            &&& short(key)
            &&& V::encodable(map[key])
            &&& short(V::encoded(map[key]))
            &&& short(encoded_entry::<V>(key, map[key]))
        }
}

/// The keys of the entries that `items` are the bytes of.
pub open spec fn item_keys<V: Codec>(items: Seq<Seq<u8>>) -> Seq<Seq<u8>> {
    Seq::new(items.len(), |i: int| (decoded_entry::<V>(items[i])->0).0)
}

/// The values of the entries that `items` are the bytes of.
pub open spec fn item_values<V: Codec>(items: Seq<Seq<u8>>) -> Seq<V::V> {
    Seq::new(items.len(), |i: int| (decoded_entry::<V>(items[i])->0).1)
}

/// The table that `bytes` are the bytes of, if there is one: the bytes are a
/// list of entries whose keys stand in ascending order.
pub open spec fn decoded_table<V: Codec>(bytes: Seq<u8>) -> Option<Map<Seq<u8>, V::V>> {
    match unpack(bytes) {
        Some(items) => if (forall|i: int|
            0 <= i < items.len() ==> (#[trigger] decoded_entry::<V>(items[i])) is Some)
            && ascending(item_keys::<V>(items)) {
            Some(entries(item_keys::<V>(items), item_values::<V>(items)))
        } else {
            None
        },
        None => None,
    }
}

/// A table that was written is read back.
pub proof fn lemma_table_round_trip<V: Codec>(map: Map<Seq<u8>, V::V>)
    requires
        table_encodable::<V>(map),
    ensures
        decoded_table::<V>(encoded_table::<V>(map)) == Some(map),
{
    let keys = ordered_keys(map);
    let items = table_items::<V>(map);
    assert forall|i: int| 0 <= i < items.len() implies (#[trigger] items[i]).len()
        <= u64::MAX by {
        lemma_slot(keys, i);
        assert(map.dom().contains(keys[i]));
    }
    lemma_unpack_pack(items);
    assert forall|i: int| 0 <= i < items.len() implies (#[trigger] decoded_entry::<V>(items[i]))
        == Some((keys[i], map[keys[i]])) by {
        lemma_slot(keys, i);
        assert(map.dom().contains(keys[i]));
        let fields = seq![keys[i], V::encoded(map[keys[i]])];
        assert(fits(fields)) by {
            assert forall|j: int| 0 <= j < fields.len() implies (#[trigger] fields[j]).len()
                <= u64::MAX by {}
        }
        lemma_unpack_pack(fields);
        V::lemma_round_trip(map[keys[i]]);
    }
    assert(item_keys::<V>(items) =~= keys);
    let values = item_values::<V>(items);
    let back = entries(keys, values);
    assert forall|key: Seq<u8>| back.dom().contains(key) implies back[key] == map[key] by {
        let i = crate::table::slot(keys, key);
        assert(values[i] == (decoded_entry::<V>(items[i])->0).1);
    }
    assert(back =~= map);
}

/// Writes a table as bytes.
pub fn encode_table<V: Codec>(table: &Table<V>) -> (bytes: Vec<u8>)
    requires
        table.wf(),
    ensures
        bytes@ == encoded_table::<V>(table@),
        table_encodable::<V>(table@),
{
    let mut items: Vec<Vec<u8>> = Vec::new();
    let mut i: usize = 0;
    proof {
        table.lemma_view();
    }
    let ghost keys = table.keys();
    while i < table.len()
        invariant
            table.wf(),
            keys == table.keys(),
            keys == ordered_keys(table@),
            i <= keys.len(),
            items@.len() == i,
            forall|j: int|
                0 <= j < i ==> {
                    &&& (#[trigger] items@[j])@ == encoded_entry::<V>(keys[j], table@[keys[j]])
                    &&& V::encodable(table@[keys[j]])
                    &&& short(V::encoded(table@[keys[j]]))
                },
        decreases keys.len() - i,
    {
        let key = table.key_at(i);
        let value = table.value_at(i);
        proof {
            table.lemma_view();
        }
        let mut fields: Vec<Vec<u8>> = Vec::new();
        fields.push(copy_of(key));
        fields.push(value.encode());
        assert(views_of(fields@) =~= seq![key@, V::encoded(value@)]);
        items.push(pack_and_wipe(fields));
        i += 1;
    }
    let bytes = pack_and_wipe(items);
    proof {
        table.lemma_view();
        assert(views_of(items@) =~= table_items::<V>(table@));
        assert forall|key: Seq<u8>| #[trigger] table@.dom().contains(key) implies {
            &&& short(key)
            &&& V::encodable(table@[key])
            &&& short(V::encoded(table@[key]))
            &&& short(encoded_entry::<V>(key, table@[key]))
        } by {
            let j = crate::table::slot(keys, key);
            assert(items@[j]@ == encoded_entry::<V>(keys[j], table@[keys[j]]));
            assert(items@[j].len() <= usize::MAX);
            assert(keys[j].len() <= usize::MAX);
        }
    }
    bytes
}

/// Reads a table from bytes.
pub fn decode_table<V: Codec>(bytes: &[u8]) -> (table: Option<Table<V>>)
    ensures
        match table {
            Some(table) => table.wf() && decoded_table::<V>(bytes@) == Some(table@),
            None => decoded_table::<V>(bytes@) is None,
        },
{
    let items = match unpack_items(bytes) {
        Some(items) => items,
        None => {
            return None;
        },
    };
    let ghost all = slices_of(items@);
    let mut table: Table<V> = Table::new();
    let mut i: usize = 0;
    assert(item_keys::<V>(all).take(0) =~= table.keys());
    assert(item_values::<V>(all).take(0) =~= table.values());
    while i < items.len()
        invariant
            table.wf(),
            i <= items@.len(),
            all == slices_of(items@),
            unpack(bytes@) == Some(all),
            forall|j: int| 0 <= j < i ==> (#[trigger] decoded_entry::<V>(all[j])) is Some,
            table.keys() == item_keys::<V>(all).take(i as int),
            table.values() == item_values::<V>(all).take(i as int),
        decreases items@.len() - i,
    {
        assert(all[i as int] == items@[i as int]@);
        let fields = match unpack_items(items[i]) {
            Some(fields) => fields,
            None => {
                assert(decoded_entry::<V>(all[i as int]) is None);
                return None;
            },
        };
        if fields.len() != 2 {
            assert(decoded_entry::<V>(all[i as int]) is None);
            return None;
        }
        let value = match V::decode(fields[1]) {
            Some(value) => value,
            None => {
                assert(slices_of(fields@)[1] == fields@[1]@);
                assert(decoded_entry::<V>(all[i as int]) is None);
                return None;
            },
        };
        let key = fields[0];
        proof {
            assert(slices_of(fields@)[0] == fields@[0]@);
            assert(slices_of(fields@)[1] == fields@[1]@);
            assert(decoded_entry::<V>(all[i as int]) == Some((key@, value@)));
            assert(item_keys::<V>(all)[i as int] == key@);
            assert(item_values::<V>(all)[i as int] == value@);
        }
        let n = table.len();
        if n > 0 {
            let last = table.key_at(n - 1);
            if !matches!(compare(last, key), Rank::Before) {
                proof {
                    crate::order::lemma_precedes_irreflexive(key@);
                    assert(last@ == item_keys::<V>(all)[i - 1]);
                    assert(!precedes(item_keys::<V>(all)[i - 1], item_keys::<V>(all)[i as int]));
                }
                return None;
            }
        }
        table.push_last(key, value);
        proof {
            assert(item_keys::<V>(all).take(i + 1) =~= item_keys::<V>(all).take(i as int).push(
                key@,
            ));
            assert(item_values::<V>(all).take(i + 1) =~= item_values::<V>(all).take(
                i as int,
            ).push(value@));
        }
        i += 1;
    }
    proof {
        assert(item_keys::<V>(all).take(i as int) =~= item_keys::<V>(all));
        assert(item_values::<V>(all).take(i as int) =~= item_values::<V>(all));
        table.lemma_view();
    }
    Some(table)
}

/// The bytes of a number.
pub open spec fn number(n: u64) -> Seq<u8> {
    spec_u64_to_le_bytes(n)
}

/// The bytes of the time that a store entry may live: none where it has no
/// limit.
pub open spec fn lifetime(ttl: Option<u64>) -> Seq<u8> {
    match ttl {
        Some(t) => number(t),
        None => Seq::empty(),
    }
}

impl Codec for StoreEntry {
    open spec fn encodable(value: StoreEntryView) -> bool {
        short(value.value)
    }

    open spec fn encoded(value: StoreEntryView) -> Seq<u8> {
        pack(seq![value.value, lifetime(value.ttl)])
    }

    open spec fn decoded(bytes: Seq<u8>) -> Option<StoreEntryView> {
        match unpack(bytes) {
            Some(fields) => if fields.len() == 2 && fields[1].len() == 0 {
                Some(StoreEntryView { value: fields[0], ttl: None })
            } else if fields.len() == 2 && fields[1].len() == 8 {
                Some(StoreEntryView { value: fields[0], ttl: Some(spec_u64_from_le_bytes(fields[1])) })
            } else {
                None
            },
            None => None,
        }
    }

    proof fn lemma_round_trip(value: StoreEntryView) {
        lemma_auto_spec_u64_to_from_le_bytes();
        let fields = seq![value.value, lifetime(value.ttl)];
        assert(fits(fields)) by {
            assert forall|j: int| 0 <= j < fields.len() implies (#[trigger] fields[j]).len()
                <= u64::MAX by {}
        }
        lemma_unpack_pack(fields);
    }

    fn encode(&self) -> (bytes: Vec<u8>) {
        let mut fields: Vec<Vec<u8>> = Vec::new();
        fields.push(copy_of(self.value.as_slice()));
        fields.push(
            match self.ttl {
                Some(t) => u64_to_le_bytes(t),
                None => Vec::new(),
            },
        );
        assert(views_of(fields@) =~= seq![self@.value, lifetime(self@.ttl)]);
        pack_and_wipe(fields)
    }

    fn decode(bytes: &[u8]) -> (value: Option<Self>) {
        let fields = match unpack_items(bytes) {
            Some(fields) => fields,
            None => {
                return None;
            },
        };
        if fields.len() != 2 {
            return None;
        }
        assert(slices_of(fields@)[0] == fields@[0]@);
        assert(slices_of(fields@)[1] == fields@[1]@);
        if fields[1].len() == 0 {
            Some(StoreEntry { value: copy_of(fields[0]), ttl: None })
        } else if fields[1].len() == 8 {
            let ttl = u64_from_le_bytes(fields[1]);
            Some(StoreEntry { value: copy_of(fields[0]), ttl: Some(ttl) })
        } else {
            None
        }
    }
}

/// The byte of a truth value.
pub open spec fn flag(value: bool) -> Seq<u8> {
    seq![if value { 1u8 } else { 0u8 }]
}

/// The bytes of a record at a position: the position, the identifier, the
/// hint, whether it is revoked, and the sealed payload.
pub open spec fn encoded_record(record: RecordView, index: u64) -> Seq<u8> {
    pack(seq![number(index), record.id, record.hint, flag(record.revoked), record.sealed])
}

/// The record that `bytes` are the bytes of at a position, if there is one.
pub open spec fn decoded_record(bytes: Seq<u8>, index: u64) -> Option<RecordView> {
    match unpack(bytes) {
        Some(fields) => if fields.len() == 5 && fields[0] == number(index) && fields[1].len()
            == ID_SIZE && fields[2].len() == ID_SIZE && (fields[3] == flag(false) || fields[3]
            == flag(true)) {
            Some(
                RecordView {
                    id: fields[1],
                    hint: fields[2],
                    sealed: fields[4],
                    revoked: fields[3] == flag(true),
                },
            )
        } else {
            None
        },
        None => None,
    }
}

/// Whether a record can be written.
pub open spec fn record_encodable(record: RecordView) -> bool {
    &&& record.id.len() == ID_SIZE
    &&& record.hint.len() == ID_SIZE
    &&& short(record.sealed)
}

/// The bytes of the records of a vault, each at its position.
pub open spec fn record_items(records: Seq<RecordView>) -> Seq<Seq<u8>> {
    Seq::new(records.len(), |i: int| encoded_record(records[i], i as u64))
}

/// The records that `items` are the bytes of.
pub open spec fn item_records(items: Seq<Seq<u8>>) -> Seq<RecordView> {
    Seq::new(items.len(), |i: int| decoded_record(items[i], i as u64)->0)
}

/// The records that `bytes` are the bytes of, if there are any.
pub open spec fn decoded_records(bytes: Seq<u8>) -> Option<Seq<RecordView>> {
    match unpack(bytes) {
        Some(items) => if items.len() <= u64::MAX && (forall|i: int|
            0 <= i < items.len() ==> (#[trigger] decoded_record(items[i], i as u64)) is Some) {
            Some(item_records(items))
        } else {
            None
        },
        None => None,
    }
}

/// A record that was written at a position is read back there.
pub proof fn lemma_record_round_trip(record: RecordView, index: u64)
    requires
        record_encodable(record),
    ensures
        decoded_record(encoded_record(record, index), index) == Some(record),
{
    lemma_auto_spec_u64_to_from_le_bytes();
    let fields = seq![
        number(index),
        record.id,
        record.hint,
        flag(record.revoked),
        record.sealed,
    ];
    assert(fits(fields)) by {
        assert forall|j: int| 0 <= j < fields.len() implies (#[trigger] fields[j]).len()
            <= u64::MAX by {}
    }
    lemma_unpack_pack(fields);
    assert(flag(true)[0] != flag(false)[0]);
}

impl Codec for Vault {
    open spec fn encodable(value: VaultView) -> bool {
        &&& value.key.len() == KEY_SIZE
        &&& value.records.len() <= u64::MAX
        &&& forall|i: int|
            0 <= i < value.records.len() ==> record_encodable(#[trigger] value.records[i])
                && short(encoded_record(value.records[i], i as u64))
        &&& short(pack(record_items(value.records)))
    }

    open spec fn encoded(value: VaultView) -> Seq<u8> {
        pack(seq![value.key, number(value.appended), pack(record_items(value.records))])
    }

    open spec fn decoded(bytes: Seq<u8>) -> Option<VaultView> {
        match unpack(bytes) {
            Some(fields) => if fields.len() == 3 && fields[0].len() == KEY_SIZE && fields[1].len()
                == 8 {
                match decoded_records(fields[2]) {
                    Some(records) => Some(
                        VaultView {
                            key: fields[0],
                            records,
                            appended: spec_u64_from_le_bytes(fields[1]),
                        },
                    ),
                    None => None,
                }
            } else {
                None
            },
            None => None,
        }
    }

    proof fn lemma_round_trip(value: VaultView) {
        lemma_auto_spec_u64_to_from_le_bytes();
        let items = record_items(value.records);
        let fields = seq![value.key, number(value.appended), pack(items)];
        assert(fits(fields)) by {
            assert forall|j: int| 0 <= j < fields.len() implies (#[trigger] fields[j]).len()
                <= u64::MAX by {}
        }
        lemma_unpack_pack(fields);
        assert(fits(items)) by {
            assert forall|j: int| 0 <= j < items.len() implies (#[trigger] items[j]).len()
                <= u64::MAX by {
                assert(record_encodable(value.records[j]));
            }
        }
        lemma_unpack_pack(items);
        assert forall|i: int| 0 <= i < items.len() implies (#[trigger] decoded_record(
            items[i],
            i as u64,
        )) == Some(value.records[i]) by {
            assert(record_encodable(value.records[i]));
            lemma_record_round_trip(value.records[i], i as u64);
        }
        assert(item_records(items) =~= value.records);
    }

    fn encode(&self) -> (bytes: Vec<u8>) {
        let mut items: Vec<Vec<u8>> = Vec::new();
        let mut i: usize = 0;
        while i < self.len()
            invariant
                i <= self@.records.len(),
                items@.len() == i,
                forall|j: int|
                    0 <= j < i ==> (#[trigger] items@[j])@ == encoded_record(
                        self@.records[j],
                        j as u64,
                    ) && record_encodable(self@.records[j]),
            decreases self@.records.len() - i,
        {
            let record = self.record_at(i);
            let mut fields: Vec<Vec<u8>> = Vec::new();
            fields.push(u64_to_le_bytes(i as u64));
            fields.push(copy_of(record.id().as_slice()));
            fields.push(copy_of(record.hint().as_slice()));
            let mut revoked: Vec<u8> = Vec::new();
            revoked.push(if record.revoked() { 1u8 } else { 0u8 });
            assert(revoked@ =~= flag(record@.revoked));
            fields.push(revoked);
            fields.push(copy_of(record.sealed()));
            assert(views_of(fields@) =~= seq![
                number(i as u64),
                record@.id,
                record@.hint,
                flag(record@.revoked),
                record@.sealed,
            ]);
            assert(record_encodable(record@)) by {
                assert(fields@[4].len() <= usize::MAX);
            }
            let packed = pack_and_wipe(fields);
            assert(packed@ == encoded_record(record@, i as u64));
            let ghost before = items@;
            items.push(packed);
            i += 1;
            assert forall|j: int| 0 <= j < i implies (#[trigger] items@[j])@ == encoded_record(
                self@.records[j],
                j as u64,
            ) && record_encodable(self@.records[j]) by {
                if j < i - 1 {
                    assert(items@[j] == before[j]);
                }
            }
        }
        let records = pack_and_wipe(items);
        proof {
            assert(views_of(items@) =~= record_items(self@.records));
            assert forall|j: int| 0 <= j < self@.records.len() implies record_encodable(
                #[trigger] self@.records[j],
            ) && short(encoded_record(self@.records[j], j as u64)) by {
                assert(items@[j]@ == encoded_record(self@.records[j], j as u64));
                assert(items@[j].len() <= usize::MAX);
            }
            assert(records.len() <= usize::MAX);
            assert(items.len() <= usize::MAX);
        }
        let mut fields: Vec<Vec<u8>> = Vec::new();
        fields.push(copy_of(self.key()));
        fields.push(u64_to_le_bytes(self.appended()));
        fields.push(records);
        assert(views_of(fields@) =~= seq![
            self@.key,
            number(self@.appended),
            pack(record_items(self@.records)),
        ]);
        pack_and_wipe(fields)
    }

    fn decode(bytes: &[u8]) -> (value: Option<Self>) {
        let fields = match unpack_items(bytes) {
            Some(fields) => fields,
            None => {
                return None;
            },
        };
        if fields.len() != 3 || fields[0].len() != KEY_SIZE || fields[1].len() != 8 {
            assert(fields@.len() == 3 ==> slices_of(fields@)[0] == fields@[0]@ && slices_of(
                fields@,
            )[1] == fields@[1]@);
            return None;
        }
        assert(slices_of(fields@)[0] == fields@[0]@);
        assert(slices_of(fields@)[1] == fields@[1]@);
        assert(slices_of(fields@)[2] == fields@[2]@);
        let items = match unpack_items(fields[2]) {
            Some(items) => items,
            None => {
                return None;
            },
        };
        let ghost all = slices_of(items@);
        let ghost key = fields@[0]@;
        let ghost count = fields@[1]@;
        let ghost body = fields@[2]@;
        let mut records: Vec<Record> = Vec::new();
        let mut i: usize = 0;
        while i < items.len()
            invariant
                i <= items@.len(),
                all == slices_of(items@),
                unpack(body) == Some(all),
                decoded_records(body) is None ==> Self::decoded(bytes@) is None,
                decoded_records(body) matches Some(found) ==> Self::decoded(bytes@) == Some(
                    VaultView { key, records: found, appended: spec_u64_from_le_bytes(count) },
                ),
                records@.len() == i,
                forall|j: int|
                    0 <= j < i ==> (#[trigger] decoded_record(all[j], j as u64)) == Some(
                        records@[j]@,
                    ),
            decreases items@.len() - i,
        {
            assert(all[i as int] == items@[i as int]@);
            let parts = match unpack_items(items[i]) {
                Some(parts) => parts,
                None => {
                    assert(decoded_record(all[i as int], i as u64) is None);
                    return None;
                },
            };
            if parts.len() != 5 {
                assert(decoded_record(all[i as int], i as u64) is None);
                return None;
            }
            proof {
                assert(slices_of(parts@)[0] == parts@[0]@);
                assert(slices_of(parts@)[1] == parts@[1]@);
                assert(slices_of(parts@)[2] == parts@[2]@);
                assert(slices_of(parts@)[3] == parts@[3]@);
                assert(slices_of(parts@)[4] == parts@[4]@);
                lemma_auto_spec_u64_to_from_le_bytes();
            }
            if parts[0].len() != 8 || u64_from_le_bytes(parts[0]) != i as u64 {
                assert(decoded_record(all[i as int], i as u64) is None);
                return None;
            }
            assert(parts@[0]@ == number(i as u64));
            let id = match Id::from_slice(parts[1]) {
                Some(id) => id,
                None => {
                    assert(decoded_record(all[i as int], i as u64) is None);
                    return None;
                },
            };
            let hint = match RecordHint::from_slice(parts[2]) {
                Some(hint) => hint,
                None => {
                    assert(decoded_record(all[i as int], i as u64) is None);
                    return None;
                },
            };
            if parts[3].len() != 1 || parts[3][0] > 1 {
                assert(flag(true).len() == 1 && flag(false).len() == 1);
                assert(flag(true)[0] == 1u8 && flag(false)[0] == 0u8);
                assert(decoded_record(all[i as int], i as u64) is None);
                return None;
            }
            let revoked = parts[3][0] == 1;
            proof {
                assert(flag(true)[0] == 1u8 && flag(false)[0] == 0u8);
                assert(parts@[3]@ =~= flag(revoked));
            }
            records.push(Record::new(id, hint, copy_of(parts[4]), revoked));
            i += 1;
        }
        assert(items@.len() <= usize::MAX);
        let ghost views = records@.map_values(|record: Record| record@);
        assert(views =~= item_records(all));
        let appended = u64_from_le_bytes(fields[1]);
        Vault::from_parts(copy_of(fields[0]), records, appended)
    }
}

impl Codec for ClientState {
    open spec fn encodable(value: ClientStateView) -> bool {
        &&& table_encodable::<Vault>(value.vaults)
        &&& table_encodable::<StoreEntry>(value.store)
        &&& short(encoded_table::<Vault>(value.vaults))
        &&& short(encoded_table::<StoreEntry>(value.store))
    }

    open spec fn encoded(value: ClientStateView) -> Seq<u8> {
        pack(seq![encoded_table::<Vault>(value.vaults), encoded_table::<StoreEntry>(value.store)])
    }

    open spec fn decoded(bytes: Seq<u8>) -> Option<ClientStateView> {
        match unpack(bytes) {
            Some(fields) => if fields.len() == 2 {
                match (
                    decoded_table::<Vault>(fields[0]),
                    decoded_table::<StoreEntry>(fields[1]),
                ) {
                    (Some(vaults), Some(store)) => Some(ClientStateView { vaults, store }),
                    _ => None,
                }
            } else {
                None
            },
            None => None,
        }
    }

    proof fn lemma_round_trip(value: ClientStateView) {
        let fields = seq![
            encoded_table::<Vault>(value.vaults),
            encoded_table::<StoreEntry>(value.store),
        ];
        assert(fits(fields)) by {
            assert forall|j: int| 0 <= j < fields.len() implies (#[trigger] fields[j]).len()
                <= u64::MAX by {}
        }
        lemma_unpack_pack(fields);
        lemma_table_round_trip::<Vault>(value.vaults);
        lemma_table_round_trip::<StoreEntry>(value.store);
    }

    fn encode(&self) -> (bytes: Vec<u8>) {
        let mut fields: Vec<Vec<u8>> = Vec::new();
        fields.push(encode_table(self.vaults()));
        fields.push(encode_table(self.store()));
        assert(views_of(fields@) =~= seq![
            encoded_table::<Vault>(self@.vaults),
            encoded_table::<StoreEntry>(self@.store),
        ]);
        assert(fields@[0].len() <= usize::MAX && fields@[1].len() <= usize::MAX);
        pack_and_wipe(fields)
    }

    fn decode(bytes: &[u8]) -> (value: Option<Self>) {
        let fields = match unpack_items(bytes) {
            Some(fields) => fields,
            None => {
                return None;
            },
        };
        if fields.len() != 2 {
            return None;
        }
        assert(slices_of(fields@)[0] == fields@[0]@);
        assert(slices_of(fields@)[1] == fields@[1]@);
        let vaults = match decode_table::<Vault>(fields[0]) {
            Some(vaults) => vaults,
            None => {
                return None;
            },
        };
        let store = match decode_table::<StoreEntry>(fields[1]) {
            Some(store) => store,
            None => {
                return None;
            },
        };
        Some(ClientState::from_parts(vaults, store))
    }
}

/// The number of bytes before the nonce of a snapshot.
pub const HEADER_SIZE: usize = 6;

/// The version of the snapshot format.
pub const VERSION: u16 = 2;

/// The bytes that a snapshot starts with: `SNP1`.
pub open spec fn magic() -> Seq<u8> {
    seq![0x53u8, 0x4Eu8, 0x50u8, 0x31u8]
}

/// The bytes of the version: [`VERSION`] in two bytes, highest first.
pub open spec fn version_bytes() -> Seq<u8> {
    seq![0x00u8, 0x02u8]
}

/// The bytes of a snapshot file around a sealed box: the magic bytes, the
/// version, and the box, which is the nonce, the ciphertext and the tag.
pub open spec fn snapshot_file(boxed: Seq<u8>) -> Seq<u8> {
    magic() + version_bytes() + boxed
}

/// What a snapshot file holds under `key`: the state of every client; or why
/// it cannot be read. A file that does not start with the magic bytes, or
/// whose box does not open under the key, or whose content is no state, fails
/// to decrypt; a file of another version is a mismatch.
pub open spec fn snapshot_state(key: Seq<u8>, bytes: Seq<u8>) -> Result<
    Map<Seq<u8>, ClientStateView>,
    EngineError,
> {
    if bytes.len() < HEADER_SIZE || bytes.take(4) != magic() {
        Err(EngineError::DecryptionFailed)
    } else if bytes.subrange(4, 6) != version_bytes() {
        Err(EngineError::VersionMismatch)
    } else {
        match unsealed(key, bytes.skip(HEADER_SIZE as int)) {
            Some(plain) => match decoded_table::<ClientState>(plain) {
                Some(state) => Ok(state),
                None => Err(EngineError::DecryptionFailed),
            },
            None => Err(EngineError::DecryptionFailed),
        }
    }
}

/// Writes the state of every client as a snapshot file under `key`, with a
/// fresh nonce. A key of another length than 32 bytes, or a state too large to
/// be encrypted, is refused.
pub fn write_snapshot(state: &Table<ClientState>, key: &[u8]) -> (result: Result<
    Vec<u8>,
    EngineError,
>)
    requires
        state.wf(),
    ensures
        match result {
            Ok(bytes) => {
                &&& key@.len() == KEY_SIZE
                &&& encoded_table::<ClientState>(state@).len() < MESSAGE_LIMIT
                &&& bytes@.len() >= HEADER_SIZE
                &&& bytes@ == snapshot_file(bytes@.skip(HEADER_SIZE as int))
                &&& seals(key@, bytes@.skip(HEADER_SIZE as int), encoded_table::<ClientState>(state@))
                &&& snapshot_state(key@, bytes@) == Ok::<Map<Seq<u8>, ClientStateView>, EngineError>(
                    state@,
                )
            },
            Err(e) => {
                &&& e == EngineError::InvalidArgument
                &&& key@.len() != KEY_SIZE || encoded_table::<ClientState>(state@).len()
                    >= MESSAGE_LIMIT
            },
        },
{
    if key.len() != KEY_SIZE {
        return Err(EngineError::InvalidArgument);
    }
    let mut plain = encode_table(state);
    let sealed = seal(key, plain.as_slice());
    wipe_bytes(&mut plain);
    let boxed = match sealed {
        Some(boxed) => boxed,
        None => {
            return Err(EngineError::InvalidArgument);
        },
    };
    let mut bytes: Vec<u8> = Vec::new();
    bytes.push(0x53u8);
    bytes.push(0x4Eu8);
    bytes.push(0x50u8);
    bytes.push(0x31u8);
    bytes.push(0x00u8);
    bytes.push(0x02u8);
    let ghost head = bytes@;
    let mut i: usize = 0;
    while i < boxed.len()
        invariant
            i <= boxed@.len(),
            bytes@ == head + boxed@.take(i as int),
        decreases boxed@.len() - i,
    {
        bytes.push(boxed[i]);
        i += 1;
    }
    proof {
        assert(boxed@.take(i as int) =~= boxed@);
        assert(head =~= magic() + version_bytes());
        assert(bytes@.skip(HEADER_SIZE as int) =~= boxed@);
        assert(bytes@.take(4) =~= magic());
        assert(bytes@.subrange(4, 6) =~= version_bytes());
        lemma_table_round_trip::<ClientState>(state@);
    }
    Ok(bytes)
}

/// Reads the state of every client from a snapshot file under `key`. A key of
/// another length than 32 bytes is refused.
pub fn read_snapshot_state(key: &[u8], bytes: &[u8]) -> (result: Result<
    Table<ClientState>,
    EngineError,
>)
    ensures
        match result {
            Ok(state) => {
                &&& state.wf()
                &&& key@.len() == KEY_SIZE
                &&& snapshot_state(key@, bytes@) == Ok::<Map<Seq<u8>, ClientStateView>, EngineError>(
                    state@,
                )
            },
            Err(e) => if key@.len() != KEY_SIZE {
                e == EngineError::InvalidArgument
            } else {
                snapshot_state(key@, bytes@) == Err::<Map<Seq<u8>, ClientStateView>, EngineError>(e)
            },
        },
{
    if key.len() != KEY_SIZE {
        return Err(EngineError::InvalidArgument);
    }
    if bytes.len() < HEADER_SIZE || bytes[0] != 0x53 || bytes[1] != 0x4E || bytes[2] != 0x50
        || bytes[3] != 0x31 {
        assert(bytes@.len() >= HEADER_SIZE ==> bytes@.take(4)[0] == bytes@[0] && bytes@.take(4)[1]
            == bytes@[1] && bytes@.take(4)[2] == bytes@[2] && bytes@.take(4)[3] == bytes@[3]);
        return Err(EngineError::DecryptionFailed);
    }
    assert(bytes@.take(4) =~= magic());
    if bytes[4] != 0x00 || bytes[5] != 0x02 {
        assert(bytes@.subrange(4, 6)[0] == bytes@[4] && bytes@.subrange(4, 6)[1] == bytes@[5]);
        return Err(EngineError::VersionMismatch);
    }
    assert(bytes@.subrange(4, 6) =~= version_bytes());
    let boxed = vstd::slice::slice_subrange(bytes, HEADER_SIZE, bytes.len());
    assert(boxed@ =~= bytes@.skip(HEADER_SIZE as int));
    let mut plain = match unseal(key, boxed) {
        Some(plain) => plain,
        None => {
            return Err(EngineError::DecryptionFailed);
        },
    };
    let state = decode_table::<ClientState>(plain.as_slice());
    wipe_bytes(&mut plain);
    match state {
        Some(state) => Ok(state),
        None => Err(EngineError::DecryptionFailed),
    }
}

/// A snapshot holds what was written: reading a snapshot file under the key
/// that its box is sealed with gives the state that was written, as far as the
/// state can be written at all.
pub proof fn law_snapshot_holds_state(
    key: Seq<u8>,
    boxed: Seq<u8>,
    state: Map<Seq<u8>, ClientStateView>,
)
    requires
        table_encodable::<ClientState>(state),
        unsealed(key, boxed) == Some(encoded_table::<ClientState>(state)),
    ensures
        snapshot_state(key, snapshot_file(boxed)) == Ok::<
            Map<Seq<u8>, ClientStateView>,
            EngineError,
        >(state),
{
    let bytes = snapshot_file(boxed);
    assert(bytes.take(4) =~= magic());
    assert(bytes.subrange(4, 6) =~= version_bytes());
    assert(bytes.skip(HEADER_SIZE as int) =~= boxed);
    lemma_table_round_trip::<ClientState>(state);
}

} // verus!
