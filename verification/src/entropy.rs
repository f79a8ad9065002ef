//! Fresh pads and file names.

use vstd::prelude::*;
use rand::distributions::{Alphanumeric, DistString};
use rand::RngCore;
use crate::mask::zeroed;

verus! {

/// Whether `c` is an ASCII letter or digit.
pub open spec fn is_alphanumeric(c: char) -> bool {
    ('a' <= c && c <= 'z') || ('A' <= c && c <= 'Z') || ('0' <= c && c <= '9')
}

/// Whether `name` is made of `len` ASCII letters and digits.
pub open spec fn is_random_name(name: Seq<char>, len: nat) -> bool {
    &&& name.len() == len
    &&& forall|i: int| 0 <= i < name.len() ==> is_alphanumeric(#[trigger] name[i])
}

/// Overwrites `bytes` with the output of the thread-local generator of the
/// `rand` crate, `rand::RngCore::fill_bytes` on `rand::thread_rng()`. The
/// length stays; nothing is known of the bytes.
#[verifier::external_body]
fn fill_random(bytes: &mut Vec<u8>)
    ensures
        final(bytes)@.len() == old(bytes)@.len(),
{
    rand::thread_rng().fill_bytes(bytes.as_mut_slice());
}

/// Draws a name with `rand::distributions::DistString::sample_string` on
/// `rand::distributions::Alphanumeric`: `len` characters, each drawn from the
/// ASCII letters and digits.
#[verifier::external_body]
pub(crate) fn random_fname(len: usize) -> (name: String)
    ensures
        is_random_name(name@, len as nat),
{
    Alphanumeric.sample_string(&mut rand::thread_rng(), len)
}

/// A pad of `size` random bytes.
pub fn random_vec(size: usize) -> (pad: Vec<u8>)
    ensures
        pad@.len() == size,
{
    let mut pad = zeroed(size);
    fill_random(&mut pad);
    pad
}

} // verus!
