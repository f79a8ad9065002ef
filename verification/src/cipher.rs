//! Authenticated encryption.

use vstd::prelude::*;
use chacha20poly1305::aead::{Aead, KeyInit};
use chacha20poly1305::{Key, XChaCha20Poly1305, XNonce};
use crate::entropy::random_vec;

verus! {

/// The length of a key.
pub const KEY_SIZE: usize = 32;

/// The length of a nonce.
pub const NONCE_SIZE: usize = 24;

/// The length of an authentication tag.
pub const TAG_SIZE: usize = 16;

/// The number of bytes from which on a message is too long to be encrypted.
pub const MESSAGE_LIMIT: u64 = 0x3f_ffff_ffc0;

/// XChaCha20-Poly1305 of `plain` under `key` and `nonce`, without associated
/// data: the ciphertext followed by the tag.
pub uninterp spec fn encrypted(key: Seq<u8>, nonce: Seq<u8>, plain: Seq<u8>) -> Seq<u8>;

/// What XChaCha20-Poly1305 makes of `sealed` under `key` and `nonce`, without
/// associated data: the plaintext, where the tag holds.
pub uninterp spec fn decrypted(key: Seq<u8>, nonce: Seq<u8>, sealed: Seq<u8>) -> Option<Seq<u8>>;

/// The view of bytes that may be missing.
pub open spec fn bytes_of(value: Option<Vec<u8>>) -> Option<Seq<u8>> {
    match value {
        Some(bytes) => Some(bytes@),
        None => None,
    }
}

/// `Aead::encrypt` of `chacha20poly1305::XChaCha20Poly1305`. It fails only on
/// a message of [`MESSAGE_LIMIT`] bytes or more. The result is 16 bytes
/// longer than the message, and decrypts to the message under the same key
/// and nonce.
#[verifier::external_body]
pub(crate) fn encrypt(key: &[u8], nonce: &[u8], plain: &[u8]) -> (sealed: Option<Vec<u8>>)
    requires
        key@.len() == KEY_SIZE,
        nonce@.len() == NONCE_SIZE,
    ensures
        sealed is Some <==> plain@.len() < MESSAGE_LIMIT,
        sealed matches Some(bytes) ==> {
            &&& bytes@ == encrypted(key@, nonce@, plain@)
            &&& bytes@.len() == plain@.len() + TAG_SIZE
            &&& decrypted(key@, nonce@, bytes@) == Some(plain@)
        },
{
    XChaCha20Poly1305::new(Key::from_slice(key)).encrypt(XNonce::from_slice(nonce), plain).ok()
}

/// `Aead::decrypt` of `chacha20poly1305::XChaCha20Poly1305`. It fails where
/// the tag does not hold; a plaintext is 16 bytes shorter than what was
/// sealed.
#[verifier::external_body]
pub(crate) fn decrypt(key: &[u8], nonce: &[u8], sealed: &[u8]) -> (plain: Option<Vec<u8>>)
    requires
        key@.len() == KEY_SIZE,
        nonce@.len() == NONCE_SIZE,
    ensures
        bytes_of(plain) == decrypted(key@, nonce@, sealed@),
        plain matches Some(bytes) ==> bytes@.len() + TAG_SIZE == sealed@.len(),
{
    XChaCha20Poly1305::new(Key::from_slice(key)).decrypt(XNonce::from_slice(nonce), sealed).ok()
}

/// Whether `boxed` is a nonce followed by what `payload` encrypts to under
/// `key` and that nonce.
pub open spec fn seals(key: Seq<u8>, boxed: Seq<u8>, payload: Seq<u8>) -> bool {
    &&& boxed.len() >= NONCE_SIZE
    &&& boxed.skip(NONCE_SIZE as int) == encrypted(key, boxed.take(NONCE_SIZE as int), payload)
}

/// What a box gives under `key`: the plaintext, where the key has
/// [`KEY_SIZE`] bytes, the box is long enough to start with a nonce, and the
/// tag holds.
pub open spec fn unsealed(key: Seq<u8>, boxed: Seq<u8>) -> Option<Seq<u8>> {
    if key.len() != KEY_SIZE || boxed.len() < NONCE_SIZE {
        None
    } else {
        decrypted(key, boxed.take(NONCE_SIZE as int), boxed.skip(NONCE_SIZE as int))
    }
}

/// Encrypts `payload` under `key` with a fresh random nonce. The box is the
/// nonce followed by the ciphertext and the tag. There is no box where the
/// key has another length than [`KEY_SIZE`] or the payload is too long.
pub fn seal(key: &[u8], payload: &[u8]) -> (boxed: Option<Vec<u8>>)
    ensures
        boxed is Some <==> key@.len() == KEY_SIZE && payload@.len() < MESSAGE_LIMIT,
        boxed matches Some(bytes) ==> {
            &&& seals(key@, bytes@, payload@)
            &&& bytes@.len() == NONCE_SIZE + payload@.len() + TAG_SIZE
            &&& unsealed(key@, bytes@) == Some(payload@)
        },
{
    if key.len() != KEY_SIZE {
        return None;
    }
    let nonce = random_vec(NONCE_SIZE);
    match encrypt(key, nonce.as_slice(), payload) {
        Some(body) => {
            let mut bytes = nonce;
            let ghost nonce_bytes = bytes@;
            let mut i: usize = 0;
            while i < body.len()
                invariant
                    i <= body@.len(),
                    bytes@ == nonce_bytes + body@.take(i as int),
                decreases body@.len() - i,
            {
                bytes.push(body[i]);
                i += 1;
            }
            proof {
                assert(body@.take(body@.len() as int) =~= body@);
                assert(bytes@.take(NONCE_SIZE as int) =~= nonce_bytes);
                assert(bytes@.skip(NONCE_SIZE as int) =~= body@);
            }
            Some(bytes)
        },
        None => None,
    }
}

/// Opens a box made by [`seal`] under the same key.
pub fn unseal(key: &[u8], boxed: &[u8]) -> (payload: Option<Vec<u8>>)
    ensures
        bytes_of(payload) == unsealed(key@, boxed@),
{
    if key.len() != KEY_SIZE || boxed.len() < NONCE_SIZE {
        return None;
    }
    let nonce = vstd::slice::slice_subrange(boxed, 0, NONCE_SIZE);
    let body = vstd::slice::slice_subrange(boxed, NONCE_SIZE, boxed.len());
    assert(nonce@ =~= boxed@.take(NONCE_SIZE as int));
    assert(body@ =~= boxed@.skip(NONCE_SIZE as int));
    decrypt(key, nonce, body)
}

/// A fresh random key.
pub fn random_key() -> (key: Vec<u8>)
    ensures
        key@.len() == KEY_SIZE,
{
    random_vec(KEY_SIZE)
}

} // verus!
