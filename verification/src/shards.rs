//! Secrets split into shards.
//!
//! A [`NonContiguousMemory`] keeps a payload as two shards of its length: a
//! random pad, and the payload masked with the pad. Neither shard alone tells
//! anything of the payload; combined by XOR they give it back.

use vstd::prelude::*;
use crate::buffer::Buffer;
use crate::entropy::random_vec;
use crate::error::MemoryError;
use crate::mask::{lemma_xor_involution, xor, xor_seq};
use crate::wipe::wipe_size;

verus! {

/// The mathematical value of a [`NonContiguousMemory`].
pub struct ShardsView {
    /// The random pad.
    pub pad: Seq<u8>,
    /// The payload masked with the pad.
    pub masked: Seq<u8>,
    /// The length of the payload.
    pub size: nat,
}

impl ShardsView {
    /// The payload that the shards combine to.
    pub open spec fn payload(self) -> Seq<u8> {
        xor_seq(self.masked, self.pad, self.size)
    }
}

/// A payload split into two shards.
pub struct NonContiguousMemory {
    size: usize,
    pad: Buffer,
    masked: Buffer,
}

impl View for NonContiguousMemory {
    type V = ShardsView;

    closed spec fn view(&self) -> ShardsView {
        ShardsView { pad: self.pad@, masked: self.masked@, size: self.size as nat }
    }
}

/// A memory that goes out of scope sets its size to zero and wipes both
/// shards.
impl Drop for NonContiguousMemory {
    fn drop(&mut self)
        ensures
            final(self)@ == (ShardsView { pad: Seq::empty(), masked: Seq::empty(), size: 0 }),
        opens_invariants none
        no_unwind
    {
        wipe_size(&mut self.size);
        self.pad.zeroize();
        self.masked.zeroize();
    }
}

impl NonContiguousMemory {
    #[verifier::type_invariant]
    spec fn shards_fit(self) -> bool {
        self.size == 0 || (self.pad@.len() == self.size && self.masked@.len() == self.size)
    }

    /// Splits the first `size` bytes of `payload` into shards. A size of zero
    /// is refused.
    pub fn allocate(payload: &[u8], size: usize) -> (result: Result<Self, MemoryError>)
        requires
            size <= payload@.len(),
        ensures
            match result {
                Ok(memory) => {
                    &&& size > 0
                    &&& memory@.size == size
                    &&& memory@.pad.len() == size
                    &&& memory@.masked == xor_seq(payload@, memory@.pad, size as nat)
                    &&& memory@.payload() == payload@.take(size as int)
                },
                Err(e) => size == 0 && e == MemoryError::ZeroSizedNotAllowed,
            },
    {
        if size == 0 {
            return Err(MemoryError::ZeroSizedNotAllowed);
        }
        let pad = random_vec(size);
        let masked = xor(payload, pad.as_slice(), size);
        proof {
            lemma_xor_involution(payload@, pad@, size as nat);
        }
        Ok(NonContiguousMemory { size, pad: Buffer::from_vec(pad), masked: Buffer::from_vec(masked) })
    }

    /// The length of the payload.
    pub fn size(&self) -> (size: usize)
        ensures
            size == self@.size,
    {
        self.size
    }

    /// Combines the shards into a buffer. A memory of size zero, as after
    /// [`Self::zeroize`], is refused.
    pub fn unlock(&self) -> (result: Result<Buffer, MemoryError>)
        ensures
            match result {
                Ok(buffer) => self@.size > 0 && buffer@ == self@.payload(),
                Err(e) => self@.size == 0 && e == MemoryError::ZeroSizedNotAllowed,
            },
    {
        if self.size == 0 {
            return Err(MemoryError::ZeroSizedNotAllowed);
        }
        proof {
            use_type_invariant(self);
        }
        Ok(Buffer::from_vec(xor(self.masked.borrow(), self.pad.borrow(), self.size)))
    }

    /// Replaces the memory by one for the first `size` bytes of `payload`.
    /// Nothing is changed in place: new shards are made under a new pad, and
    /// the old shards and the payload buffer are wiped.
    pub fn update(self, payload: Buffer, size: usize) -> (result: Result<Self, MemoryError>)
        requires
            size <= payload@.len(),
        ensures
            match result {
                Ok(memory) => {
                    &&& size > 0
                    &&& memory@.size == size
                    &&& memory@.payload() == payload@.take(size as int)
                },
                Err(e) => size == 0 && e == MemoryError::ZeroSizedNotAllowed,
            },
    {
        let mut replaced = self;
        let mut payload = payload;
        let result = Self::allocate(payload.borrow(), size);
        payload.zeroize();
        replaced.zeroize();
        result
    }

    /// Erases the memory: the size is set to zero and both shards are wiped.
    pub fn zeroize(&mut self)
        ensures
            final(self)@ == (ShardsView { pad: Seq::empty(), masked: Seq::empty(), size: 0 }),
    {
        wipe_size(&mut self.size);
        self.pad.zeroize();
        self.masked.zeroize();
    }
}

} // verus!
