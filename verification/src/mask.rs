//! Byte-wise XOR masking.

use vstd::prelude::*;

verus! {

/// The first `size` bytes of `a`, each combined by XOR with the byte of `b` at
/// the same position.
pub open spec fn xor_seq(a: Seq<u8>, b: Seq<u8>, size: nat) -> Seq<u8> {
    Seq::new(size, |i: int| a[i] ^ b[i])
}

/// A sequence of `size` zero bytes.
pub open spec fn zeros(size: nat) -> Seq<u8> {
    Seq::new(size, |i: int| 0u8)
}

/// Combines the first `size` bytes of `a` and `b` by XOR.
pub fn xor(a: &[u8], b: &[u8], size: usize) -> (out: Vec<u8>)
    requires
        size <= a@.len(),
        size <= b@.len(),
    ensures
        out@ == xor_seq(a@, b@, size as nat),
{
    let mut out: Vec<u8> = Vec::with_capacity(size);
    let mut i: usize = 0;
    while i < size
        invariant
            i <= size,
            size <= a@.len(),
            size <= b@.len(),
            out@ == xor_seq(a@, b@, i as nat),
        decreases size - i,
    {
        out.push(a[i] ^ b[i]);
        i += 1;
    }
    out
}

/// A vector of `size` zero bytes.
pub fn zeroed(size: usize) -> (out: Vec<u8>)
    ensures
        out@ == zeros(size as nat),
{
    let mut out: Vec<u8> = Vec::with_capacity(size);
    let mut i: usize = 0;
    while i < size
        invariant
            i <= size,
            out@ == zeros(i as nat),
        decreases size - i,
    {
        out.push(0u8);
        i += 1;
    }
    out
}

/// A copy of `bytes`.
pub fn copy_of(bytes: &[u8]) -> (out: Vec<u8>)
    ensures
        out@ == bytes@,
{
    let mut out: Vec<u8> = Vec::with_capacity(bytes.len());
    let mut i: usize = 0;
    while i < bytes.len()
        invariant
            i <= bytes@.len(),
            out@ == bytes@.take(i as int),
        decreases bytes@.len() - i,
    {
        out.push(bytes[i]);
        i += 1;
    }
    out
}

/// Masking twice with the same pad gives back the first `size` bytes of the
/// payload.
pub proof fn lemma_xor_involution(payload: Seq<u8>, pad: Seq<u8>, size: nat)
    requires
        size <= payload.len(),
        size <= pad.len(),
    ensures
        xor_seq(xor_seq(payload, pad, size), pad, size) == payload.take(size as int),
{
    assert forall|i: int| 0 <= i < size implies #[trigger] xor_seq(
        xor_seq(payload, pad, size),
        pad,
        size,
    )[i] == payload[i] by {
        let p = payload[i];
        let n = pad[i];
        assert((p ^ n) ^ n == p) by (bit_vector);
    }
}

} // verus!
