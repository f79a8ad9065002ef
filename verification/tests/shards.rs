//! Secrets split into shards.

use stronghold_core::buffer::Buffer;
use stronghold_core::error::MemoryError;
use stronghold_core::shards::NonContiguousMemory;

#[test]
fn shards_combine_to_the_payload() {
    let memory = NonContiguousMemory::allocate(b"split me", 8).unwrap();
    assert_eq!(memory.size(), 8);
    assert_eq!(memory.unlock().unwrap().borrow(), b"split me");
    // unlocking does not use the shards up
    assert_eq!(memory.unlock().unwrap().borrow(), b"split me");
}

#[test]
fn shards_hold_the_first_size_bytes() {
    let memory = NonContiguousMemory::allocate(&[1, 2, 3, 4, 5], 2).unwrap();
    assert_eq!(memory.unlock().unwrap().borrow(), &[1, 2][..]);
}

#[test]
fn shards_refuse_size_zero() {
    assert!(matches!(
        NonContiguousMemory::allocate(&[1, 2, 3], 0),
        Err(MemoryError::ZeroSizedNotAllowed)
    ));
}

#[test]
fn shards_are_replaced_on_update() {
    let memory = NonContiguousMemory::allocate(b"before", 6).unwrap();
    let memory = memory.update(Buffer::allocate(b"afterwards", 10), 10).unwrap();
    assert_eq!(memory.size(), 10);
    assert_eq!(memory.unlock().unwrap().borrow(), b"afterwards");
    let gone = memory.update(Buffer::allocate(b"", 0), 0);
    assert!(matches!(gone, Err(MemoryError::ZeroSizedNotAllowed)));
}

#[test]
fn erased_shards_do_not_unlock() {
    let mut memory = NonContiguousMemory::allocate(b"secret", 6).unwrap();
    memory.zeroize();
    assert_eq!(memory.size(), 0);
    assert!(matches!(memory.unlock(), Err(MemoryError::ZeroSizedNotAllowed)));
    memory.zeroize();
    assert_eq!(memory.size(), 0);
}
