//! The unlocked handle of a secret.

use vstd::prelude::*;
use vstd::string::*;
use crate::mask::copy_of;
use crate::wipe::wipe_bytes;

verus! {

/// Plaintext in memory, for as long as the value lives. The bytes are
/// overwritten with zeros when the buffer is dropped.
pub struct Buffer {
    data: Vec<u8>,
}

impl View for Buffer {
    type V = Seq<u8>;

    closed spec fn view(&self) -> Seq<u8> {
        self.data@
    }
}

impl Buffer {
    /// A buffer that holds the first `size` bytes of `data`.
    pub fn allocate(data: &[u8], size: usize) -> (buffer: Buffer)
        requires
            size <= data@.len(),
        ensures
            buffer@ == data@.take(size as int),
    {
        let mut bytes: Vec<u8> = Vec::with_capacity(size);
        let mut i: usize = 0;
        while i < size
            invariant
                i <= size,
                size <= data@.len(),
                bytes@ == data@.take(i as int),
            decreases size - i,
        {
            bytes.push(data[i]);
            i += 1;
        }
        Buffer { data: bytes }
    }

    /// The number of bytes held.
    pub fn len(&self) -> (len: usize)
        ensures
            len == self@.len(),
    {
        self.data.len()
    }

    /// A read-only view of the bytes.
    pub fn borrow(&self) -> (bytes: &[u8])
        ensures
            bytes@ == self@,
    {
        self.data.as_slice()
    }

    /// A second buffer with the same bytes.
    pub fn duplicate(&self) -> (copy: Buffer)
        ensures
            copy@ == self@,
    {
        Buffer { data: copy_of(self.data.as_slice()) }
    }

    /// A buffer without bytes.
    pub fn empty() -> (buffer: Buffer)
        ensures
            buffer@ == Seq::<u8>::empty(),
    {
        Buffer { data: Vec::new() }
    }

    /// A buffer that takes over `bytes`.
    pub fn from_vec(bytes: Vec<u8>) -> (buffer: Buffer)
        ensures
            buffer@ == bytes@,
    {
        Buffer { data: bytes }
    }

    /// Overwrites the bytes with zeros and empties the buffer.
    pub fn zeroize(&mut self)
        ensures
            final(self)@ == Seq::<u8>::empty(),
        opens_invariants none
        no_unwind
    {
        wipe_bytes(&mut self.data);
    }
}

/// What is written out in the place of a secret: a fixed text that tells
/// nothing of the content.
pub open spec fn placeholder() -> Seq<char> {
    "Content of Locked Memory is hidden"@
}

/// The text that stands for a locked memory wherever one is written out.
pub fn debug_message() -> (text: String)
    ensures
        text@ == placeholder(),
{
    String::from_str("Content of Locked Memory is hidden")
}

/// A buffer that goes out of scope overwrites its bytes with zeros and holds
/// nothing when it is released.
impl Drop for Buffer {
    fn drop(&mut self)
        ensures
            final(self)@ == Seq::<u8>::empty(),
        opens_invariants none
        no_unwind
    {
        wipe_bytes(&mut self.data);
    }
}

} // verus!
