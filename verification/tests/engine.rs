//! The router, its clients and their vaults.

use stronghold_core::error::EngineError;
use stronghold_core::ids::{ClientId, Id, Location, RecordHint};
use stronghold_core::router::{Phase, Router};
use stronghold_core::sync::{check_paths, synchronize_full, synchronize_partial, Source};

fn read(router: &Router, client: &[u8], location: &Location) -> Vec<u8> {
    router.read_secret(client, location).unwrap().borrow().to_vec()
}

fn hint(text: &[u8]) -> RecordHint {
    RecordHint::new(text).unwrap()
}

#[test]
fn counter_records_are_read_back_and_revoked() {
    let vault_path = b"path".to_vec();
    let client_path = b"test".to_vec();

    let loc0 = Location::counter(b"path", Some(0));
    let loc1 = Location::counter(b"path", Some(1));
    let loc2 = Location::counter(b"path", Some(2));
    let store_loc = Location::generic(b"some", b"path");

    let mut stronghold = Router::init_stronghold_system(&client_path);

    assert!(stronghold.write_to_vault(&loc0, b"test", hint(b"first hint")).is_ok());
    assert_eq!(std::str::from_utf8(&read(&stronghold, &client_path, &loc0)), Ok("test"));

    assert!(stronghold.write_to_vault(&loc1, b"another test", hint(b"another hint")).is_ok());
    assert_eq!(std::str::from_utf8(&read(&stronghold, &client_path, &loc1)), Ok("another test"));

    assert!(stronghold
        .write_to_vault(&loc2, b"yet another test", hint(b"yet another hint"))
        .is_ok());
    assert_eq!(
        std::str::from_utf8(&read(&stronghold, &client_path, &loc2)),
        Ok("yet another test")
    );

    assert_eq!(std::str::from_utf8(&read(&stronghold, &client_path, &loc0)), Ok("test"));
    assert_eq!(std::str::from_utf8(&read(&stronghold, &client_path, &loc1)), Ok("another test"));
    assert_eq!(
        std::str::from_utf8(&read(&stronghold, &client_path, &loc2)),
        Ok("yet another test")
    );

    let ids = stronghold.list_hints_and_ids(&vault_path);
    assert_eq!(ids.len(), 3);
    assert_eq!(ids[0].1, hint(b"first hint"));
    assert_eq!(ids[1].1, hint(b"another hint"));
    assert_eq!(ids[2].1, hint(b"yet another hint"));

    assert!(stronghold.delete_data(&loc0, true).is_ok());

    // attempt to read the first record of the vault.
    assert_eq!(std::str::from_utf8(&read(&stronghold, &client_path, &loc0)), Ok(""));
    assert!(!stronghold.record_exists(&loc0));
    assert!(stronghold.vault_exists(&loc0));

    let ids = stronghold.list_hints_and_ids(&vault_path);
    assert_eq!(ids.len(), 2);
    assert_eq!(ids[0].1, hint(b"another hint"));

    assert!(stronghold.write_to_store(&store_loc, b"test", None).is_ok());
    assert_eq!(std::str::from_utf8(&stronghold.read_from_store(&store_loc)), Ok("test"));

    // the other records are where they were until the vault is collected
    assert_eq!(std::str::from_utf8(&read(&stronghold, &client_path, &loc1)), Ok("another test"));
    assert!(stronghold.garbage_collect(&vault_path).is_ok());
    assert_eq!(std::str::from_utf8(&read(&stronghold, &client_path, &loc0)), Ok("another test"));
    assert_eq!(
        std::str::from_utf8(&read(&stronghold, &client_path, &loc1)),
        Ok("yet another test")
    );
    // a position behind the last record reads as nothing
    assert_eq!(std::str::from_utf8(&read(&stronghold, &client_path, &loc2)), Ok(""));

    assert!(stronghold.delete_from_store(&store_loc).is_ok());
    assert_eq!(std::str::from_utf8(&stronghold.read_from_store(&store_loc)), Ok(""));
}

#[test]
fn killed_client_reads_nothing() {
    let client_path = b"test".to_vec();
    let loc0 = Location::counter(b"path", Some(0));
    let loc2 = Location::generic(b"path", b"record");
    let store_loc = Location::generic(b"some", b"path");
    let mut stronghold = Router::init_stronghold_system(&client_path);
    stronghold.write_to_vault(&loc0, b"test", hint(b"first hint")).unwrap();
    stronghold.write_to_vault(&loc2, b"yet another test", hint(b"hint")).unwrap();
    stronghold.write_to_store(&store_loc, b"test", None).unwrap();
    assert_eq!(stronghold.phase_of(&client_path), Phase::Active);

    assert!(stronghold.kill_stronghold(&client_path, false).is_ok());

    assert_eq!(stronghold.phase_of(&client_path), Phase::Killed);
    assert_eq!(std::str::from_utf8(&read(&stronghold, &client_path, &loc0)), Ok(""));
    assert_eq!(std::str::from_utf8(&read(&stronghold, &client_path, &loc2)), Ok(""));
    assert_eq!(std::str::from_utf8(&stronghold.read_from_store(&store_loc)), Ok(""));
    assert!(!stronghold.vault_exists(&loc0));
    assert!(stronghold.persisted().len() == 0);
    // a client that is gone takes no operation
    assert_eq!(
        stronghold.write_to_vault(&loc0, b"test", hint(b"h")),
        Err(EngineError::ClientNotFound)
    );
    assert_eq!(stronghold.write_to_store(&store_loc, b"x", None), Err(EngineError::ClientNotFound));
    assert_eq!(stronghold.delete_from_store(&store_loc), Err(EngineError::ClientNotFound));
    assert_eq!(stronghold.delete_data(&loc0, true), Err(EngineError::ClientNotFound));
    assert_eq!(stronghold.garbage_collect(b"path"), Err(EngineError::ClientNotFound));
    assert!(stronghold.list_hints_and_ids(b"path").is_empty());
    assert_eq!(stronghold.kill_stronghold(&client_path, false), Err(EngineError::ClientNotFound));
}

#[test]
fn killed_client_persists_on_request() {
    let key = b"abcdefghijklmnopqrstuvwxyz012345".to_vec();
    let loc = Location::generic(b"vault", b"record");
    let mut stronghold = Router::init_stronghold_system(b"keeper");
    stronghold.write_to_vault(&loc, b"kept", hint(b"hint")).unwrap();
    stronghold.kill_stronghold(b"keeper", true).unwrap();
    assert_eq!(read(&stronghold, b"keeper", &loc), b"");
    let bytes = stronghold.write_all_to_snapshot(&key).unwrap();

    let mut fresh = Router::init_stronghold_system(b"keeper");
    fresh.read_snapshot(b"keeper", None, &key, &bytes).unwrap();
    assert_eq!(read(&fresh, b"keeper", &loc), b"kept");
}

#[test]
fn what_was_put_aside_survives_a_load() {
    let key = b"abcdefghijklmnopqrstuvwxyz012345".to_vec();
    let loc = Location::generic(b"vault", b"record");
    // a snapshot that knows one client
    let mut other = Router::init_stronghold_system(b"loaded");
    other.write_to_vault(&loc, b"from the file", hint(b"hint")).unwrap();
    let file = other.write_all_to_snapshot(&key).unwrap();

    let mut stronghold = Router::init_stronghold_system(b"keeper");
    stronghold.write_to_vault(&loc, b"kept", hint(b"hint")).unwrap();
    stronghold.kill_stronghold(b"keeper", true).unwrap();
    stronghold.read_snapshot(b"loaded", None, &key, &file).unwrap();
    assert_eq!(stronghold.persisted().len(), 2);
    let bytes = stronghold.write_all_to_snapshot(&key).unwrap();

    let mut fresh = Router::init_stronghold_system(b"keeper");
    fresh.read_snapshot(b"keeper", None, &key, &bytes).unwrap();
    assert_eq!(read(&fresh, b"keeper", &loc), b"kept");
    fresh.read_snapshot(b"loaded", None, &key, &bytes).unwrap();
    fresh.switch_actor_target(b"loaded").unwrap();
    assert_eq!(read(&fresh, b"loaded", &loc), b"from the file");
}

#[test]
fn test_actor_isolation() {
    let path_a = b"path-a".to_vec();
    let path_b = b"path-b".to_vec();

    let location_a = Location::generic(b"vault_path0", b"record_path0");
    let location_b = Location::generic(b"vault_path1", b"record_path1");

    let mut stronghold = Router::init_stronghold_system(&path_a);
    stronghold.write_to_vault(&location_a, b"payload_a", hint(b"hint")).unwrap();

    // spawn second stronghold
    stronghold.spawn_stronghold_actor(&path_b).unwrap();

    // switch current client actor
    assert!(stronghold.switch_actor_target(&path_b).is_ok());

    stronghold.write_to_vault(&location_b, b"payload_b", hint(b"hint0")).unwrap();

    // switch to first client actor
    assert!(stronghold.switch_actor_target(&path_a).is_ok());

    // check if entry from b is inside a
    assert!(!stronghold.vault_exists(&location_b));
}

#[test]
fn same_location_under_two_clients() {
    let loc = Location::counter(b"path", Some(0));
    let mut stronghold = Router::init_stronghold_system(b"test a");
    stronghold.spawn_stronghold_actor(b"test b").unwrap();

    stronghold.switch_actor_target(b"test a").unwrap();
    stronghold.write_to_vault(&loc, b"test", hint(b"first hint")).unwrap();
    stronghold.switch_actor_target(b"test b").unwrap();
    stronghold.write_to_vault(&loc, b"a new actor test", hint(b"first hint")).unwrap();

    // a read names the client, and gets nothing unless that client is the target
    assert_eq!(read(&stronghold, b"test b", &loc), b"a new actor test");
    assert_eq!(read(&stronghold, b"test a", &loc), b"");
    stronghold.switch_actor_target(b"test a").unwrap();
    assert_eq!(read(&stronghold, b"test a", &loc), b"test");
    assert_eq!(read(&stronghold, b"test b", &loc), b"");
}

#[test]
fn spawn_and_switch_report_errors() {
    let mut stronghold = Router::init_stronghold_system(b"one");
    assert_eq!(stronghold.phase_of(b"one"), Phase::Uninitialised);
    assert_eq!(stronghold.phase_of(b"two"), Phase::Killed);
    assert_eq!(stronghold.spawn_stronghold_actor(b"one"), Err(EngineError::ClientAlreadyExists));
    assert_eq!(stronghold.switch_actor_target(b"two"), Err(EngineError::ClientNotFound));
    assert_eq!(stronghold.spawn_stronghold_actor(b"two"), Ok(()));
    // spawning does not change the target
    assert_eq!(stronghold.target(), Id::load_from_path(b"one", b"one"));
    assert_eq!(stronghold.switch_actor_target(b"two"), Ok(()));
    assert_eq!(stronghold.target(), Id::load_from_path(b"two", b"two"));
    assert_eq!(stronghold.phase_of(b"two"), Phase::Uninitialised);
    stronghold.write_to_vault(&Location::counter(b"v", None), b"x", hint(b"h")).unwrap();
    assert_eq!(stronghold.phase_of(b"two"), Phase::Active);
    assert_eq!(stronghold.phase_of(b"one"), Phase::Uninitialised);
}

#[test]
fn snapshot_restores_a_client() {
    let key = b"abcdefghijklmnopqrstuvwxyz012345".to_vec();
    let loc_a = Location::generic(b"vault", b"a");
    let loc_b = Location::counter(b"other vault", Some(0));
    let store_loc = Location::generic(b"some", b"path");
    let mut stronghold = Router::init_stronghold_system(b"test");
    stronghold.write_to_vault(&loc_a, b"first secret", hint(b"hint a")).unwrap();
    stronghold.write_to_vault(&loc_b, b"second secret", hint(b"hint b")).unwrap();
    stronghold.write_to_store(&store_loc, b"scratch", Some(60)).unwrap();
    let bytes = stronghold.write_all_to_snapshot(&key).unwrap();
    assert_eq!(&bytes[..6], &[0x53, 0x4E, 0x50, 0x31, 0x00, 0x02]);

    // a router that has never seen the client
    let mut fresh = Router::init_stronghold_system(b"test");
    assert_eq!(read(&fresh, b"test", &loc_a), b"");
    assert_eq!(fresh.read_snapshot(b"test", None, &key, &bytes), Ok(()));
    assert_eq!(fresh.phase_of(b"test"), Phase::Active);
    assert_eq!(read(&fresh, b"test", &loc_a), b"first secret");
    assert_eq!(read(&fresh, b"test", &loc_b), b"second secret");
    assert_eq!(fresh.read_from_store(&store_loc), b"scratch");
    assert_eq!(fresh.list_hints_and_ids(b"vault"), stronghold.list_hints_and_ids(b"vault"));
}

#[test]
fn snapshot_renames_on_load() {
    let key = b"abcdefghijklmnopqrstuvwxyz012345".to_vec();
    let loc = Location::generic(b"vault", b"record");
    let mut stronghold = Router::init_stronghold_system(b"former");
    stronghold.write_to_vault(&loc, b"moved", hint(b"hint")).unwrap();
    let bytes = stronghold.write_all_to_snapshot(&key).unwrap();

    assert_eq!(stronghold.read_snapshot(b"target", Some(b"former"), &key, &bytes), Ok(()));
    // nothing reads under the former client
    assert_eq!(stronghold.phase_of(b"former"), Phase::Killed);
    assert_eq!(read(&stronghold, b"former", &loc), b"");
    assert!(!stronghold.vault_exists(&loc));
    // everything reads under the target
    stronghold.switch_actor_target(b"target").unwrap();
    assert_eq!(read(&stronghold, b"target", &loc), b"moved");
    assert!(stronghold.vault_exists(&loc));
}

#[test]
fn snapshot_errors_leave_the_router_alone() {
    let key = b"abcdefghijklmnopqrstuvwxyz012345".to_vec();
    let wrong = b"ABCDEFGHIJKLMNOPQRSTUVWXYZ012345".to_vec();
    let loc = Location::generic(b"vault", b"record");
    let mut stronghold = Router::init_stronghold_system(b"test");
    stronghold.write_to_vault(&loc, b"secret", hint(b"hint")).unwrap();
    let bytes = stronghold.write_all_to_snapshot(&key).unwrap();

    assert_eq!(
        stronghold.read_snapshot(b"test", None, &wrong, &bytes),
        Err(EngineError::DecryptionFailed)
    );
    let mut tampered = bytes.clone();
    let last = tampered.len() - 1;
    tampered[last] ^= 1;
    assert_eq!(
        stronghold.read_snapshot(b"test", None, &key, &tampered),
        Err(EngineError::DecryptionFailed)
    );
    let mut other_version = bytes.clone();
    other_version[5] = 3;
    assert_eq!(
        stronghold.read_snapshot(b"test", None, &key, &other_version),
        Err(EngineError::VersionMismatch)
    );
    let mut other_magic = bytes.clone();
    other_magic[0] = b'X';
    assert_eq!(
        stronghold.read_snapshot(b"test", None, &key, &other_magic),
        Err(EngineError::DecryptionFailed)
    );
    assert_eq!(
        stronghold.read_snapshot(b"test", None, &key, &bytes[..5]),
        Err(EngineError::DecryptionFailed)
    );
    assert_eq!(
        stronghold.read_snapshot(b"test", None, &key[..31], &bytes),
        Err(EngineError::InvalidArgument)
    );
    assert_eq!(
        stronghold.read_snapshot(b"test", Some(b"stranger"), &key, &bytes),
        Err(EngineError::ClientNotFound)
    );
    assert_eq!(stronghold.write_all_to_snapshot(&key[..31]), Err(EngineError::InvalidArgument));
    assert_eq!(read(&stronghold, b"test", &loc), b"secret");
}

struct Sessions {
    bytes_a: Vec<u8>,
    bytes_b: Vec<u8>,
    key_a: Vec<u8>,
    key_b: Vec<u8>,
    key_destination: Vec<u8>,
}

fn location(index: &str) -> Location {
    Location::generic(
        format!("vault_{}", index).as_bytes(),
        format!("loc_{}", index).as_bytes(),
    )
}

fn sessions() -> Sessions {
    let key_a = b"aaaBBcDDDDcccbbbBBDDD11223344556".to_vec();
    let key_b = b"lkjhbhnushfzghfjdkslaksjdnfjs2ks".to_vec();
    let key_destination = b"12345678912345678912345678912345".to_vec();

    // A
    let mut stronghold = Router::init_stronghold_system(b"client_path0");
    stronghold.write_to_vault(&location("a0"), b"payload_a0", hint(b"record_hint_a0")).unwrap();
    for (client, index, payload) in [
        (b"client_path1", "a1", b"payload_a1"),
        (b"client_path2", "a2", b"payload_a2"),
        (b"client_path3", "a3", b"payload_a3"),
    ] {
        stronghold.spawn_stronghold_actor(client).unwrap();
        stronghold.switch_actor_target(client).unwrap();
        stronghold.write_to_vault(&location(index), payload, hint(b"record_hint_a0")).unwrap();
    }
    let bytes_a = stronghold.write_all_to_snapshot(&key_a).unwrap();

    // B
    let mut stronghold = Router::init_stronghold_system(b"client_path4");
    stronghold.write_to_vault(&location("b0"), b"payload_b0", hint(b"record_hint_a0")).unwrap();
    stronghold.spawn_stronghold_actor(b"client_path5").unwrap();
    stronghold.switch_actor_target(b"client_path5").unwrap();
    stronghold.write_to_vault(&location("b1"), b"payload_b1", hint(b"record_hint_a0")).unwrap();
    let bytes_b = stronghold.write_all_to_snapshot(&key_b).unwrap();

    Sessions { bytes_a, bytes_b, key_a, key_b, key_destination }
}

/// Loads the client from the destination snapshot and tells whether the vault
/// of `index` is there for it.
fn vault_in(destination: &[u8], key: &[u8], client: &[u8], index: &str) -> bool {
    let mut stronghold = Router::init_stronghold_system(client);
    match stronghold.read_snapshot(client, None, key, destination) {
        Ok(()) => stronghold.vault_exists(&location(index)),
        Err(error) => {
            assert_eq!(error, EngineError::ClientNotFound);
            false
        }
    }
}

#[test]
fn test_fully_synchronize_snapshot() {
    let s = sessions();
    let destination = synchronize_full(
        &Source { path: b"path_a.snapshot", key: &s.key_a, bytes: &s.bytes_a },
        &Source { path: b"path_b.snapshot", key: &s.key_b, bytes: &s.bytes_b },
        b"path_destination.snapshot",
        &s.key_destination,
    )
    .unwrap();

    // check for existing locations
    assert!(vault_in(&destination, &s.key_destination, b"client_path0", "a0"));
    assert!(vault_in(&destination, &s.key_destination, b"client_path1", "a1"));
    assert!(vault_in(&destination, &s.key_destination, b"client_path2", "a2"));
    assert!(vault_in(&destination, &s.key_destination, b"client_path3", "a3"));
    assert!(vault_in(&destination, &s.key_destination, b"client_path4", "b0"));
    assert!(vault_in(&destination, &s.key_destination, b"client_path5", "b1"));
    // and the payloads came along
    let mut stronghold = Router::init_stronghold_system(b"client_path4");
    stronghold.read_snapshot(b"client_path4", None, &s.key_destination, &destination).unwrap();
    assert_eq!(read(&stronghold, b"client_path4", &location("b0")), b"payload_b0");
}

#[test]
fn test_partially_synchronize_snapshot() {
    let s = sessions();
    let allowed: Vec<ClientId> = vec![Id::load_from_path(b"client_path5", b"client_path5")];
    let destination = synchronize_partial(
        &Source { path: b"path_a.snapshot", key: &s.key_a, bytes: &s.bytes_a },
        &Source { path: b"path_b.snapshot", key: &s.key_b, bytes: &s.bytes_b },
        b"path_destination.snapshot",
        &s.key_destination,
        &allowed,
    )
    .unwrap();

    assert!(!vault_in(&destination, &s.key_destination, b"client_path4", "b0"));
    assert!(vault_in(&destination, &s.key_destination, b"client_path5", "b1"));
    assert!(vault_in(&destination, &s.key_destination, b"client_path0", "a0"));
    assert!(vault_in(&destination, &s.key_destination, b"client_path3", "a3"));
}

#[test]
fn synchronisation_refuses_equal_paths() {
    let s = sessions();
    let a = Source { path: b"same", key: &s.key_a, bytes: &s.bytes_a };
    let b = Source { path: b"same", key: &s.key_b, bytes: &s.bytes_b };
    let c = Source { path: b"other", key: &s.key_b, bytes: &s.bytes_b };
    assert_eq!(
        synchronize_full(&a, &b, b"destination", &s.key_destination),
        Err(EngineError::InvalidArgument)
    );
    assert_eq!(
        synchronize_full(&a, &c, b"same", &s.key_destination),
        Err(EngineError::InvalidArgument)
    );
    assert_eq!(
        synchronize_full(&a, &c, b"other", &s.key_destination),
        Err(EngineError::InvalidArgument)
    );
    assert_eq!(
        synchronize_partial(&a, &b, b"destination", &s.key_destination, &[]),
        Err(EngineError::InvalidArgument)
    );
    assert!(synchronize_full(&a, &c, b"destination", &s.key_destination).is_ok());
    assert_eq!(check_paths(b"a", b"b", b"c"), Ok(()));
    assert_eq!(check_paths(b"a", b"a", b"c"), Err(EngineError::InvalidArgument));
    assert_eq!(check_paths(b"a", b"b", b"a"), Err(EngineError::InvalidArgument));
    assert_eq!(check_paths(b"a", b"b", b"b"), Err(EngineError::InvalidArgument));
}

#[test]
fn synchronisation_reports_unreadable_snapshots() {
    let s = sessions();
    let a = Source { path: b"a", key: &s.key_a, bytes: &s.bytes_a };
    let b_wrong_key = Source { path: b"b", key: &s.key_a, bytes: &s.bytes_b };
    assert_eq!(
        synchronize_full(&a, &b_wrong_key, b"d", &s.key_destination),
        Err(EngineError::DecryptionFailed)
    );
    let mut old = s.bytes_a.clone();
    old[5] = 1;
    let a_old = Source { path: b"a", key: &s.key_a, bytes: &old };
    let b = Source { path: b"b", key: &s.key_b, bytes: &s.bytes_b };
    assert_eq!(
        synchronize_full(&a_old, &b, b"d", &s.key_destination),
        Err(EngineError::VersionMismatch)
    );
    assert_eq!(synchronize_full(&a, &b, b"d", b"short"), Err(EngineError::InvalidArgument));
}

#[test]
fn base_wins_where_both_know_a_client() {
    let key = b"abcdefghijklmnopqrstuvwxyz012345".to_vec();
    let shared = Location::generic(b"shared", b"record");
    let only_a = Location::generic(b"only a", b"record");
    let only_b = Location::generic(b"only b", b"record");
    let store_loc = Location::generic(b"some", b"path");

    let mut a = Router::init_stronghold_system(b"client");
    a.write_to_vault(&shared, b"from a", hint(b"a")).unwrap();
    a.write_to_vault(&only_a, b"a alone", hint(b"a")).unwrap();
    a.write_to_store(&store_loc, b"store of a", None).unwrap();
    let bytes_a = a.write_all_to_snapshot(&key).unwrap();

    let mut b = Router::init_stronghold_system(b"client");
    b.write_to_vault(&shared, b"from b", hint(b"b")).unwrap();
    b.write_to_vault(&only_b, b"b alone", hint(b"b")).unwrap();
    b.write_to_store(&store_loc, b"store of b", None).unwrap();
    let bytes_b = b.write_all_to_snapshot(&key).unwrap();

    let destination = synchronize_full(
        &Source { path: b"a", key: &key, bytes: &bytes_a },
        &Source { path: b"b", key: &key, bytes: &bytes_b },
        b"d",
        &key,
    )
    .unwrap();
    let mut d = Router::init_stronghold_system(b"client");
    d.read_snapshot(b"client", None, &key, &destination).unwrap();
    assert_eq!(read(&d, b"client", &shared), b"from a");
    assert_eq!(read(&d, b"client", &only_a), b"a alone");
    assert_eq!(read(&d, b"client", &only_b), b"b alone");
    assert_eq!(d.read_from_store(&store_loc), b"store of a");

    // with the client off the allow-list, nothing of b comes in
    let destination = synchronize_partial(
        &Source { path: b"a", key: &key, bytes: &bytes_a },
        &Source { path: b"b", key: &key, bytes: &bytes_b },
        b"d",
        &key,
        &[],
    )
    .unwrap();
    let mut d = Router::init_stronghold_system(b"client");
    d.read_snapshot(b"client", None, &key, &destination).unwrap();
    assert_eq!(read(&d, b"client", &shared), b"from a");
    assert!(!d.vault_exists(&only_b));
}
