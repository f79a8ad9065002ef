//! Procedures over secrets.

use stronghold_core::buffer::Buffer;
use stronghold_core::error::EngineError;
use stronghold_core::ids::{Location, RecordHint};
use stronghold_core::procedure::{inputs, outputs, Output, Products};
use stronghold_core::router::Router;

fn hint(text: &[u8]) -> RecordHint {
    RecordHint::new(text).unwrap()
}

fn read(router: &Router, client: &[u8], location: &Location) -> Vec<u8> {
    router.read_secret(client, location).unwrap().borrow().to_vec()
}

/// A procedure of the embedding program: derives a child from a seed, and
/// tells the length of the seed.
fn derive(inputs: &[Buffer]) -> Result<Products, u32> {
    let seed = inputs[0].borrow();
    if seed.is_empty() {
        return Err(10);
    }
    let child: Vec<u8> = seed.iter().rev().copied().collect();
    Ok(Products { secrets: vec![Buffer::from_vec(child)], public: vec![seed.len() as u8] })
}

#[test]
fn procedure_reads_inputs_and_writes_outputs() {
    let seed = Location::generic(b"slip10", b"seed");
    let child = Location::generic(b"slip10", b"child");
    let mut stronghold = Router::init_stronghold_system(b"test a");
    stronghold.write_to_vault(&seed, b"AAAAAB", hint(b"first hint")).unwrap();

    let secrets = inputs(&stronghold, &[seed.duplicate()]).unwrap();
    assert_eq!(secrets.len(), 1);
    assert_eq!(secrets[0].borrow(), b"AAAAAB");
    let public = outputs(
        &mut stronghold,
        derive(&secrets),
        &[Output { location: child.duplicate(), hint: hint(b"generic") }],
    )
    .unwrap();
    // the caller learns what is public, the secret went to the vault
    assert_eq!(public, vec![6]);
    assert_eq!(read(&stronghold, b"test a", &child), b"BAAAAA");
    assert_eq!(read(&stronghold, b"test a", &seed), b"AAAAAB");
    let listing = stronghold.list_hints_and_ids(b"slip10");
    assert_eq!(listing.len(), 2);
    assert_eq!(listing[1].1, hint(b"generic"));
}

#[test]
fn failed_procedure_changes_nothing() {
    let seed = Location::generic(b"slip10", b"seed");
    let child = Location::generic(b"slip10", b"child");
    let mut stronghold = Router::init_stronghold_system(b"test a");
    // there is no seed: the procedure gets an empty input and rejects it
    let secrets = inputs(&stronghold, &[seed.duplicate()]).unwrap();
    assert!(secrets[0].borrow().is_empty());
    let result = outputs(
        &mut stronghold,
        derive(&secrets),
        &[Output { location: child.duplicate(), hint: hint(b"generic") }],
    );
    assert_eq!(result, Err(EngineError::ProcedureFailed(10)));
    assert!(!stronghold.vault_exists(&child));
}

#[test]
fn products_have_to_match_the_outputs() {
    let a = Location::generic(b"v", b"a");
    let b = Location::generic(b"v", b"b");
    let mut stronghold = Router::init_stronghold_system(b"test a");
    let two = Products {
        secrets: vec![Buffer::from_vec(vec![1]), Buffer::from_vec(vec![2])],
        public: Vec::new(),
    };
    let result = outputs(
        &mut stronghold,
        Ok(two),
        &[Output { location: a.duplicate(), hint: hint(b"h") }],
    );
    assert_eq!(result, Err(EngineError::InvalidArgument));
    assert!(!stronghold.vault_exists(&a));

    let two = Products {
        secrets: vec![Buffer::from_vec(vec![1]), Buffer::from_vec(vec![2])],
        public: vec![9, 9],
    };
    let result = outputs(
        &mut stronghold,
        Ok(two),
        &[
            Output { location: a.duplicate(), hint: hint(b"h") },
            Output { location: b.duplicate(), hint: hint(b"h") },
        ],
    );
    assert_eq!(result, Ok(vec![9, 9]));
    assert_eq!(read(&stronghold, b"test a", &a), vec![1]);
    assert_eq!(read(&stronghold, b"test a", &b), vec![2]);
    // a procedure without outputs
    let none = Products { secrets: Vec::new(), public: vec![7] };
    assert_eq!(outputs(&mut stronghold, Ok(none), &[]), Ok(vec![7]));
}

#[test]
fn procedures_need_a_living_client() {
    let a = Location::generic(b"v", b"a");
    let mut stronghold = Router::init_stronghold_system(b"test a");
    stronghold.kill_stronghold(b"test a", false).unwrap();
    assert!(!stronghold.targeted());
    assert!(matches!(inputs(&stronghold, &[a.duplicate()]), Err(EngineError::ClientNotFound)));
    let products = Products { secrets: vec![Buffer::from_vec(vec![1])], public: Vec::new() };
    let result =
        outputs(&mut stronghold, Ok(products), &[Output { location: a, hint: hint(b"h") }]);
    assert_eq!(result, Err(EngineError::ClientNotFound));
    assert_eq!(outputs(&mut stronghold, Err(3), &[]), Err(EngineError::ProcedureFailed(3)));
}
