//! Vaults, client states and what they are made of.

use chacha20poly1305::aead::{Aead, KeyInit};
use chacha20poly1305::{Key, XChaCha20Poly1305, XNonce};
use stronghold_core::cipher::{random_key, seal, unseal, KEY_SIZE, NONCE_SIZE, TAG_SIZE};
use stronghold_core::client::ClientState;
use stronghold_core::codec::{pack_and_wipe, pack_items, unpack_items, wipe_items};
use stronghold_core::error::EngineError;
use stronghold_core::ids::{Id, Location, RecordHint, ID_SIZE};
use stronghold_core::order::{compare, Rank};
use stronghold_core::snapshot::{decode_table, encode_table, read_snapshot_state, write_snapshot, Codec};
use stronghold_core::table::Table;
use stronghold_core::vault::{appended_id, record_id, Record, Vault};

#[test]
fn identifiers_are_deterministic_hashes() {
    let a = Id::load_from_path(b"data", b"path");
    let b = Id::load_from_path(b"data", b"path");
    assert_eq!(a, b);
    assert!(a.same(&b));
    assert_eq!(a.as_slice().len(), ID_SIZE);
    assert_ne!(a, Id::load_from_path(b"data", b"other path"));
    assert_ne!(a, Id::load_from_path(b"other data", b"path"));
    assert!(!a.same(&Id::load_from_path(b"path", b"data")));
    // HMAC-SHA512 of "data" under the key "path", cut to 24 bytes, is not "data"
    assert_ne!(&a.as_slice()[..4], b"data");
    assert_ne!(a.bytes, [0u8; 24]);
    assert_eq!(Id::from_slice(a.as_slice()), Some(a));
    assert_eq!(Id::from_slice(&[0u8; 23]), None);
}

#[test]
fn identifier_is_the_head_of_hmac_sha512() {
    // the second test vector of RFC 4231
    let id = Id::load_from_path(b"what do ya want for nothing?", b"Jefe");
    let expected: [u8; 24] = [
        0x16, 0x4b, 0x7a, 0x7b, 0xfc, 0xf8, 0x19, 0xe2, 0xe3, 0x95, 0xfb, 0xe7, 0x3b, 0x56, 0xe0,
        0xa3, 0x87, 0xbd, 0x64, 0x22, 0x2e, 0x83, 0x1f, 0xd6,
    ];
    assert_eq!(id.bytes, expected);
}

#[test]
fn hints_are_padded_with_zeros() {
    let hint = RecordHint::new(b"first hint").unwrap();
    assert_eq!(&hint.bytes[..10], b"first hint");
    assert_eq!(&hint.bytes[10..], &[0u8; 14]);
    assert_eq!(hint.as_slice().len(), 24);
    assert!(RecordHint::new(&[1u8; 24]).is_some());
    assert!(RecordHint::new(&[1u8; 25]).is_none());
    assert_eq!(RecordHint::new(b"").unwrap().bytes, [0u8; 24]);
    assert_eq!(RecordHint::from_slice(&[7u8; 24]).unwrap().bytes, [7u8; 24]);
    assert!(RecordHint::from_slice(b"short").is_none());
}

#[test]
fn locations() {
    let generic = Location::generic(b"vault", b"record");
    assert_eq!(
        generic,
        Location::Generic { vault_path: b"vault".to_vec(), record_path: b"record".to_vec() }
    );
    let counter = Location::counter(b"vault", Some(3));
    assert_eq!(counter, Location::Counter { vault_path: b"vault".to_vec(), counter: Some(3) });
    assert_eq!(generic.vault_path(), b"vault");
    assert_eq!(counter.vault_path(), b"vault");
    assert_eq!(generic.vault_id(), counter.vault_id());
    assert_eq!(generic.vault_id(), Id::load_from_path(b"vault", b"vault"));
    assert_eq!(counter.duplicate(), counter);
    assert_ne!(record_id(b"vault", b"a"), record_id(b"vault", b"b"));
    assert_ne!(record_id(b"vault", b"a"), record_id(b"other", b"a"));
    assert_ne!(appended_id(b"vault", 0), appended_id(b"vault", 1));
    assert_ne!(appended_id(b"vault", 0), record_id(b"vault", &[0u8; 8]));
}

#[test]
fn byte_strings_are_ordered_lexicographically() {
    assert_eq!(compare(b"", b""), Rank::Same);
    assert_eq!(compare(b"", b"a"), Rank::Before);
    assert_eq!(compare(b"a", b""), Rank::After);
    assert_eq!(compare(b"abc", b"abd"), Rank::Before);
    assert_eq!(compare(b"abd", b"abc"), Rank::After);
    assert_eq!(compare(b"ab", b"abc"), Rank::Before);
    assert_eq!(compare(b"b", b"abc"), Rank::After);
    assert_eq!(compare(b"abc", b"abc"), Rank::Same);
    assert_eq!(compare(&[0xff], &[0x00, 0x01]), Rank::After);
}

#[test]
fn seal_and_unseal() {
    let key = random_key();
    assert_eq!(key.len(), KEY_SIZE);
    let boxed = seal(&key, b"attack at dawn").unwrap();
    assert_eq!(boxed.len(), NONCE_SIZE + 14 + TAG_SIZE);
    assert_eq!(unseal(&key, &boxed), Some(b"attack at dawn".to_vec()));
    // the box does not show the payload
    assert!(!boxed.windows(14).any(|w| w == b"attack at dawn"));
    // a fresh nonce every time
    assert_ne!(seal(&key, b"attack at dawn").unwrap(), boxed);
    // another key, a flipped bit or a short box do not open
    assert_eq!(unseal(&random_key(), &boxed), None);
    let mut tampered = boxed.clone();
    tampered[NONCE_SIZE] ^= 0x80;
    assert_eq!(unseal(&key, &tampered), None);
    assert_eq!(unseal(&key, &boxed[..NONCE_SIZE - 1]), None);
    assert_eq!(unseal(&key, &boxed[..NONCE_SIZE + 3]), None);
    // the empty payload
    let boxed = seal(&key, b"").unwrap();
    assert_eq!(boxed.len(), NONCE_SIZE + TAG_SIZE);
    assert_eq!(unseal(&key, &boxed), Some(Vec::new()));
}

#[test]
fn boxes_are_xchacha20_poly1305() {
    let key: Vec<u8> = (0x80..=0x9f).collect();
    let nonce: Vec<u8> = (0x40..0x58).collect();
    let cipher = XChaCha20Poly1305::new(Key::from_slice(&key));
    // what the cipher sealed, behind its nonce, is a box that opens
    let body = cipher.encrypt(XNonce::from_slice(&nonce), &b"Ladies and Gentlemen"[..]).unwrap();
    let boxed = [nonce.clone(), body].concat();
    assert_eq!(unseal(&key, &boxed).unwrap(), b"Ladies and Gentlemen");
    // and a box is a nonce and what the cipher seals under it
    let boxed = seal(&key, b"of the class of '99").unwrap();
    let (nonce, body) = boxed.split_at(NONCE_SIZE);
    assert_eq!(
        cipher.decrypt(XNonce::from_slice(nonce), body).unwrap(),
        b"of the class of '99"
    );
    assert_eq!(
        cipher.encrypt(XNonce::from_slice(nonce), &b"of the class of '99"[..]).unwrap(),
        body
    );
    // keys of another length seal and open nothing
    assert_eq!(seal(&key[..31], b"x"), None);
    assert_eq!(unseal(&key[..31], &boxed), None);
}

fn read(vault: &Vault, location: &Location) -> Vec<u8> {
    vault.read(location).unwrap().borrow().to_vec()
}

#[test]
fn vault_writes_append_or_overwrite() {
    let mut vault = Vault::new();
    assert_eq!(vault.key().len(), KEY_SIZE);
    let hint = RecordHint::new(b"hint").unwrap();
    let a = Location::generic(b"vault", b"a");
    let b = Location::generic(b"vault", b"b");
    vault.write(&a, b"first", hint).unwrap();
    vault.write(&b, b"second", hint).unwrap();
    assert_eq!(vault.len(), 2);
    assert_eq!(vault.slot_of(&a), Some(0));
    assert_eq!(vault.slot_of(&b), Some(1));
    assert_eq!(vault.record_at(0).id(), record_id(b"vault", b"a"));
    // the payload is sealed
    assert_ne!(vault.record_at(0).sealed(), b"first");
    assert_eq!(vault.record_at(0).sealed().len(), NONCE_SIZE + 5 + TAG_SIZE);
    // overwriting keeps place and identifier
    let other = RecordHint::new(b"other").unwrap();
    vault.write(&a, b"first, again", other).unwrap();
    assert_eq!(vault.len(), 2);
    assert_eq!(vault.slot_of(&a), Some(0));
    assert_eq!(vault.record_at(0).hint(), other);
    assert_eq!(read(&vault, &a), b"first, again");
    assert_eq!(read(&vault, &b), b"second");
    // by position
    assert_eq!(read(&vault, &Location::counter(b"vault", Some(1))), b"second");
    vault.write(&Location::counter(b"vault", Some(1)), b"second, again", hint).unwrap();
    assert_eq!(read(&vault, &b), b"second, again");
    assert_eq!(vault.record_at(1).id(), record_id(b"vault", b"b"));
    // behind the last
    vault.write(&Location::counter(b"vault", None), b"third", hint).unwrap();
    vault.write(&Location::counter(b"vault", Some(17)), b"fourth", hint).unwrap();
    assert_eq!(vault.len(), 4);
    assert_eq!(vault.appended(), 2);
    assert_eq!(vault.record_at(2).id(), appended_id(b"vault", 0));
    assert_eq!(vault.record_at(3).id(), appended_id(b"vault", 1));
    assert_eq!(read(&vault, &Location::counter(b"vault", Some(3))), b"fourth");
    assert_eq!(read(&vault, &Location::counter(b"vault", Some(4))), b"");
    assert_eq!(read(&vault, &Location::counter(b"vault", None)), b"");
    assert_eq!(read(&vault, &Location::generic(b"vault", b"missing")), b"");
}

#[test]
fn vault_revokes_and_collects() {
    let mut vault = Vault::new();
    let hints: Vec<RecordHint> =
        (0..4u8).map(|i| RecordHint::new(&[b'h', b'0' + i]).unwrap()).collect();
    for (i, hint) in hints.iter().enumerate() {
        vault.write(&Location::counter(b"v", None), &[i as u8; 3], *hint).unwrap();
    }
    let at = |k: usize| Location::counter(b"v", Some(k));
    assert_eq!(vault.revoke(&at(1)), Ok(()));
    assert_eq!(vault.revoke(&at(3)), Ok(()));
    assert_eq!(vault.revoke(&at(4)), Err(EngineError::RecordNotFound));
    assert_eq!(
        vault.revoke(&Location::generic(b"v", b"missing")),
        Err(EngineError::RecordNotFound)
    );
    assert!(vault.record_at(1).revoked());
    assert!(!vault.record_at(0).revoked());
    assert!(vault.has_record(&at(0)));
    assert!(!vault.has_record(&at(1)));
    assert!(!vault.has_record(&at(9)));
    assert_eq!(read(&vault, &at(1)), b"");
    assert_eq!(read(&vault, &at(2)), vec![2u8; 3]);
    assert_eq!(vault.len(), 4);
    let listing = vault.list_hints_and_ids();
    assert_eq!(listing.len(), 2);
    assert_eq!(listing[0], (appended_id(b"v", 0), hints[0]));
    assert_eq!(listing[1], (appended_id(b"v", 2), hints[2]));

    vault.garbage_collect();
    assert_eq!(vault.len(), 2);
    assert_eq!(read(&vault, &at(0)), vec![0u8; 3]);
    assert_eq!(read(&vault, &at(1)), vec![2u8; 3]);
    assert_eq!(vault.list_hints_and_ids(), listing);
    // collecting again changes nothing
    vault.garbage_collect();
    assert_eq!(vault.len(), 2);
    // a revoked record comes back when it is written again
    vault.revoke(&at(0)).unwrap();
    vault.write(&at(0), b"again", hints[3]).unwrap();
    assert!(vault.has_record(&at(0)));
    assert_eq!(read(&vault, &at(0)), b"again");
}

#[test]
fn vault_read_reports_a_broken_record() {
    let key = random_key();
    let hint = RecordHint::new(b"h").unwrap();
    let id = record_id(b"v", b"r");
    let mut sealed = seal(&key, b"payload").unwrap();
    sealed[30] ^= 1;
    let vault = Vault::from_parts(key, vec![Record::new(id, hint, sealed, false)], 0).unwrap();
    let result = vault.read(&Location::generic(b"v", b"r"));
    assert!(matches!(result, Err(EngineError::DecryptionFailed)));
    assert!(Vault::from_parts(vec![0u8; 31], Vec::new(), 0).is_none());
}

#[test]
fn vault_duplicate_is_independent() {
    let mut vault = Vault::new();
    let hint = RecordHint::new(b"h").unwrap();
    let location = Location::generic(b"v", b"r");
    vault.write(&location, b"one", hint).unwrap();
    let copy = vault.duplicate();
    vault.write(&location, b"two", hint).unwrap();
    assert_eq!(read(&copy, &location), b"one");
    assert_eq!(read(&vault, &location), b"two");
    assert_eq!(copy.key(), vault.key());
}

#[test]
fn client_state_operations() {
    let mut state = ClientState::new();
    let hint = RecordHint::new(b"h").unwrap();
    let location = Location::generic(b"vault", b"record");
    let elsewhere = Location::generic(b"another vault", b"record");
    assert!(!state.vault_exists(&location));
    assert_eq!(state.read_secret(&location).unwrap().borrow(), b"");
    assert_eq!(state.delete_data(&location, true), Err(EngineError::VaultNotFound));
    assert_eq!(state.garbage_collect(b"vault"), Err(EngineError::VaultNotFound));
    assert!(state.list_hints_and_ids(b"vault").is_empty());

    state.write_to_vault(&location, b"secret", hint).unwrap();
    assert!(state.vault_exists(&location));
    assert!(state.record_exists(&location));
    assert!(!state.vault_exists(&elsewhere));
    assert!(!state.record_exists(&Location::generic(b"vault", b"other record")));
    assert_eq!(state.vaults().len(), 1);
    assert_eq!(state.read_secret(&location).unwrap().borrow(), b"secret");
    assert_eq!(
        state.delete_data(&Location::generic(b"vault", b"other record"), true),
        Err(EngineError::RecordNotFound)
    );
    // the record is revoked whatever the flag says
    assert_eq!(state.delete_data(&location, false), Ok(()));
    assert!(!state.record_exists(&location));
    assert!(state.vault_exists(&location));
    assert_eq!(state.read_secret(&location).unwrap().borrow(), b"");
    assert_eq!(state.garbage_collect(b"vault"), Ok(()));
    assert!(state.vault_exists(&location));
    assert!(state.list_hints_and_ids(b"vault").is_empty());
}

#[test]
fn store_keeps_plain_values() {
    let mut state = ClientState::new();
    let a = Location::generic(b"some", b"path");
    let b = Location::counter(b"some", Some(1));
    let c = Location::counter(b"some", None);
    assert_eq!(state.read_from_store(&a), b"");
    state.write_to_store(&a, b"generic", None);
    state.write_to_store(&b, b"counted", Some(30));
    state.write_to_store(&c, b"open", None);
    assert_eq!(state.read_from_store(&a), b"generic");
    assert_eq!(state.read_from_store(&b), b"counted");
    assert_eq!(state.ttl_in_store(&b), Some(30));
    assert_eq!(state.ttl_in_store(&a), None);
    assert_eq!(state.read_from_store(&c), b"open");
    assert_eq!(state.store().len(), 3);
    state.write_to_store(&a, b"replaced", None);
    assert_eq!(state.read_from_store(&a), b"replaced");
    assert_eq!(state.store().len(), 3);
    state.delete_from_store(&b);
    assert_eq!(state.read_from_store(&b), b"");
    assert_eq!(state.store().len(), 2);
    // the store is no vault
    assert!(!state.vault_exists(&a));
}

#[test]
fn tables_keep_their_keys_in_order() {
    let mut table: Table<Vault> = Table::new();
    assert_eq!(table.len(), 0);
    assert!(table.insert(b"m", Vault::new()).is_none());
    assert!(table.insert(b"a", Vault::new()).is_none());
    assert!(table.insert(b"z", Vault::new()).is_none());
    assert!(table.insert(b"ab", Vault::new()).is_none());
    assert!(table.insert(b"m", Vault::new()).is_some());
    assert_eq!(table.len(), 4);
    let keys: Vec<&[u8]> = (0..4).map(|i| table.key_at(i)).collect();
    assert_eq!(keys, vec![&b"a"[..], b"ab", b"m", b"z"]);
    assert_eq!(table.find(b"ab"), Some(1));
    assert_eq!(table.find(b"b"), None);
    assert!(table.contains(b"z"));
    assert!(table.get(b"m").is_some());
    assert!(table.get(b"n").is_none());
    assert!(table.remove(b"a").is_some());
    assert!(table.remove(b"a").is_none());
    assert_eq!(table.len(), 3);
    assert_eq!(table.key_at(0), b"ab");

    let mut other: Table<Vault> = Table::new();
    other.insert(b"m", Vault::new());
    other.insert(b"b", Vault::new());
    let from_other = other.value_at(1).key().to_vec();
    table.absorb(&other);
    assert_eq!(table.len(), 4);
    assert_eq!(table.get(b"m").unwrap().key(), &from_other[..]);
    let copy = table.duplicate();
    assert_eq!(copy.len(), 4);
    assert_eq!(copy.get(b"m").unwrap().key(), &from_other[..]);
}

#[test]
fn lists_of_byte_strings() {
    let items = vec![b"one".to_vec(), Vec::new(), b"three".to_vec()];
    let bytes = pack_items(&items);
    assert_eq!(
        bytes,
        [
            &[3u8, 0, 0, 0, 0, 0, 0, 0][..],
            b"one",
            &[0u8; 8][..],
            &[5u8, 0, 0, 0, 0, 0, 0, 0][..],
            b"three"
        ]
        .concat()
    );
    let parts: Vec<&[u8]> = items.iter().map(|item| &item[..]).collect();
    assert_eq!(unpack_items(&bytes), Some(parts));
    // packing with a wipe gives the same bytes and leaves nothing behind
    assert_eq!(pack_and_wipe(items.clone()), bytes);
    let mut items = items;
    wipe_items(&mut items);
    assert!(items.is_empty());
    assert_eq!(unpack_items(&[]), Some(Vec::new()));
    assert_eq!(pack_items(&Vec::new()), Vec::<u8>::new());
    // a length that is cut off, and a length that runs over the end
    assert_eq!(unpack_items(&[1, 0, 0]), None);
    assert_eq!(unpack_items(&[2, 0, 0, 0, 0, 0, 0, 0, 9]), None);
    assert_eq!(unpack_items(&[0xff; 8]), None);
}

#[test]
fn values_are_written_and_read_back() {
    let mut state = ClientState::new();
    let hint = RecordHint::new(b"h").unwrap();
    state.write_to_vault(&Location::generic(b"v1", b"a"), b"one", hint).unwrap();
    state.write_to_vault(&Location::generic(b"v1", b"b"), b"two", hint).unwrap();
    state.write_to_vault(&Location::counter(b"v2", None), b"three", hint).unwrap();
    state.delete_data(&Location::generic(b"v1", b"a"), true).unwrap();
    state.write_to_store(&Location::generic(b"s", b"p"), b"scratch", Some(7));
    let bytes = state.encode();
    let back = ClientState::decode(&bytes).unwrap();
    assert_eq!(back.encode(), bytes);
    assert_eq!(back.read_secret(&Location::generic(b"v1", b"b")).unwrap().borrow(), b"two");
    assert_eq!(back.read_secret(&Location::generic(b"v1", b"a")).unwrap().borrow(), b"");
    assert_eq!(back.read_secret(&Location::counter(b"v2", Some(0))).unwrap().borrow(), b"three");
    assert_eq!(back.read_from_store(&Location::generic(b"s", b"p")), b"scratch");
    assert_eq!(back.ttl_in_store(&Location::generic(b"s", b"p")), Some(7));
    assert_eq!(back.vaults().len(), 2);
    // what is not in this form is not read
    assert!(ClientState::decode(&bytes[..bytes.len() - 1]).is_none());
    assert!(ClientState::decode(b"").is_none());
    assert!(Vault::decode(&bytes).is_none());
    let vault = state.vaults().value_at(0);
    let vault_bytes = vault.encode();
    assert_eq!(Vault::decode(&vault_bytes).unwrap().encode(), vault_bytes);
}

#[test]
fn tables_are_read_only_in_order() {
    let mut table: Table<Vault> = Table::new();
    table.insert(b"b", Vault::new());
    table.insert(b"a", Vault::new());
    let bytes = encode_table(&table);
    let back: Table<Vault> = decode_table(&bytes).unwrap();
    assert_eq!(back.len(), 2);
    assert_eq!(back.key_at(0), b"a");
    assert_eq!(encode_table(&back), bytes);
    // the same entries the other way round
    let items = unpack_items(&bytes).unwrap();
    let swapped = pack_items(&vec![items[1].to_vec(), items[0].to_vec()]);
    assert!(decode_table::<Vault>(&swapped).is_none());
    let twice = pack_items(&vec![items[0].to_vec(), items[0].to_vec()]);
    assert!(decode_table::<Vault>(&twice).is_none());
    assert_eq!(decode_table::<Vault>(&[]).unwrap().len(), 0);
}

#[test]
fn snapshot_file_layout() {
    let key = [7u8; 32];
    let mut table: Table<ClientState> = Table::new();
    let mut state = ClientState::new();
    state
        .write_to_vault(&Location::generic(b"v", b"r"), b"x", RecordHint::new(b"h").unwrap())
        .unwrap();
    table.insert(Id::load_from_path(b"c", b"c").as_slice(), state);
    let plain = encode_table(&table);
    let bytes = write_snapshot(&table, &key).unwrap();
    assert_eq!(&bytes[..4], b"SNP1");
    assert_eq!(&bytes[4..6], &[0, 2]);
    assert_eq!(bytes.len(), 4 + 2 + 24 + plain.len() + 16);
    assert_eq!(unseal(&key, &bytes[6..]), Some(plain));
    let back = read_snapshot_state(&key, &bytes).unwrap();
    assert_eq!(back.len(), 1);
    assert_eq!(encode_table(&back), encode_table(&table));
    assert!(matches!(write_snapshot(&table, &key[..16]), Err(EngineError::InvalidArgument)));
    assert!(matches!(
        read_snapshot_state(&key[..16], &bytes),
        Err(EngineError::InvalidArgument)
    ));
    assert!(matches!(read_snapshot_state(&key, b"SNP1"), Err(EngineError::DecryptionFailed)));
    // a box that opens but holds no state
    let mut junk = b"SNP1\x00\x02".to_vec();
    junk.extend(seal(&key, b"not a state").unwrap());
    assert!(matches!(read_snapshot_state(&key, &junk), Err(EngineError::DecryptionFailed)));
}
