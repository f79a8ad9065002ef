//! Erasing values from memory.

use vstd::prelude::*;
use zeroize::Zeroize;

verus! {

/// Erases a byte vector with `zeroize::Zeroize::zeroize`, which overwrites
/// the bytes and the spare capacity with zeros and then empties the vector.
#[verifier::external_body]
pub(crate) fn wipe_bytes(bytes: &mut Vec<u8>)
    ensures
        final(bytes)@ == Seq::<u8>::empty(),
    opens_invariants none
    no_unwind
{
    bytes.zeroize();
}

/// Erases a string with `zeroize::Zeroize::zeroize`, which overwrites its
/// bytes with zeros and then empties it.
#[verifier::external_body]
pub(crate) fn wipe_string(text: &mut String)
    ensures
        final(text)@ == Seq::<char>::empty(),
    opens_invariants none
    no_unwind
{
    text.zeroize();
}

/// Erases a length with `zeroize::Zeroize::zeroize`, which overwrites it with
/// the default value of its type, zero.
#[verifier::external_body]
pub(crate) fn wipe_size(size: &mut usize)
    ensures
        *final(size) == 0,
    opens_invariants none
    no_unwind
{
    size.zeroize();
}

} // verus!
