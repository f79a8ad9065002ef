//! Values that cross from a child process to its parent as bytes.

use vstd::prelude::*;
use vstd::bytes::{
    lemma_auto_spec_u32_to_from_le_bytes, spec_u32_from_le_bytes, spec_u32_to_le_bytes,
    u32_from_le_bytes, u32_to_le_bytes,
};
use crate::mask::copy_of;

verus! {

/// Where the receiver of a value stands.
pub enum TransferableState<O, E> {
    /// The value is complete.
    Done(O),
    /// The bytes received are not the encoding of any value.
    Failed(E),
    /// More bytes are needed.
    Continue,
}

/// A value that can be sent as bytes and put together again, a few bytes at a
/// time.
pub trait Transferable: Sized {
    /// What the receiver keeps between two deliveries.
    type State;

    /// What the receiver ends up with.
    type Out;

    /// Why the receiver gave up.
    type Error;

    /// The bytes that carry the value.
    spec fn encoding(&self) -> Seq<u8>;

    /// The bytes that the receiver has taken in so far.
    spec fn taken(state: Option<Self::State>) -> Seq<u8>;

    /// Whether `verdict` is what a receiver says that has taken in `bytes`.
    spec fn answers(bytes: Seq<u8>, verdict: TransferableState<Self::Out, Self::Error>) -> bool;

    /// A receiver that has not started has taken in nothing.
    proof fn lemma_nothing_taken()
        ensures
            Self::taken(None) == Seq::<u8>::empty(),
    ;

    /// The bytes to send.
    fn transfer(&self) -> (bytes: Vec<u8>)
        ensures
            bytes@ == self.encoding(),
    ;

    /// Takes in the next bytes, which may be none, and says where the
    /// receiver stands after all the bytes it was given. While it asks for
    /// more, the state keeps what was taken in.
    fn receive(state: &mut Option<Self::State>, bytes: &[u8]) -> (verdict: TransferableState<
        Self::Out,
        Self::Error,
    >)
        ensures
            Self::answers(Self::taken(*old(state)) + bytes@, verdict),
            verdict is Continue ==> Self::taken(*final(state)) == Self::taken(*old(state))
                + bytes@,
    ;
}

/// The bytes kept by a receiver that stores what it takes in.
pub open spec fn stored(state: Option<Vec<u8>>) -> Seq<u8> {
    match state {
        Some(bytes) => bytes@,
        None => Seq::empty(),
    }
}

/// Appends `bytes` to what the receiver has stored.
fn store(state: &mut Option<Vec<u8>>, bytes: &[u8])
    ensures
        *final(state) is Some,
        stored(*final(state)) == stored(*old(state)) + bytes@,
{
    let mut kept: Vec<u8> = match state.take() {
        Some(kept) => kept,
        None => Vec::new(),
    };
    let ghost before = kept@;
    let mut i: usize = 0;
    while i < bytes.len()
        invariant
            i <= bytes@.len(),
            kept@ == before + bytes@.take(i as int),
        decreases bytes@.len() - i,
    {
        kept.push(bytes[i]);
        i += 1;
    }
    assert(bytes@.take(bytes@.len() as int) =~= bytes@);
    *state = Some(kept);
}

/// The unit value takes no bytes: its receiver is done before any byte has
/// come in, whatever it is given, and keeps nothing.
impl Transferable for () {
    type State = ();

    type Out = ();

    type Error = ();

    open spec fn encoding(&self) -> Seq<u8> {
        Seq::empty()
    }

    closed spec fn taken(state: Option<()>) -> Seq<u8> {
        Seq::empty()
    }

    open spec fn answers(bytes: Seq<u8>, verdict: TransferableState<(), ()>) -> bool {
        verdict == TransferableState::<(), ()>::Done(())
    }

    proof fn lemma_nothing_taken() {
    }

    fn transfer(&self) -> (bytes: Vec<u8>) {
        Vec::new()
    }

    fn receive(state: &mut Option<()>, bytes: &[u8]) -> (verdict: TransferableState<(), ()>)
        ensures
            verdict == TransferableState::<(), ()>::Done(()),
            *final(state) == *old(state),
    {
        TransferableState::Done(())
    }
}

/// A byte is sent as itself.
impl Transferable for u8 {
    type State = Vec<u8>;

    type Out = u8;

    type Error = ();

    open spec fn encoding(&self) -> Seq<u8> {
        seq![*self]
    }

    open spec fn taken(state: Option<Vec<u8>>) -> Seq<u8> {
        stored(state)
    }

    open spec fn answers(bytes: Seq<u8>, verdict: TransferableState<u8, ()>) -> bool {
        if bytes.len() < 1 {
            verdict is Continue
        } else {
            verdict == TransferableState::<u8, ()>::Done(bytes[0])
        }
    }

    proof fn lemma_nothing_taken() {
    }

    fn transfer(&self) -> (bytes: Vec<u8>) {
        let mut bytes: Vec<u8> = Vec::new();
        bytes.push(*self);
        assert(bytes@ =~= seq![*self]);
        bytes
    }

    fn receive(state: &mut Option<Vec<u8>>, bytes: &[u8]) -> (verdict: TransferableState<u8, ()>) {
        store(state, bytes);
        match state {
            Some(kept) => {
                if kept.len() < 1 {
                    TransferableState::Continue
                } else {
                    TransferableState::Done(kept[0])
                }
            },
            None => TransferableState::Continue,
        }
    }
}

/// An unsigned 32-bit number is sent as four bytes, lowest first.
impl Transferable for u32 {
    type State = Vec<u8>;

    type Out = u32;

    type Error = ();

    open spec fn encoding(&self) -> Seq<u8> {
        spec_u32_to_le_bytes(*self)
    }

    open spec fn taken(state: Option<Vec<u8>>) -> Seq<u8> {
        stored(state)
    }

    open spec fn answers(bytes: Seq<u8>, verdict: TransferableState<u32, ()>) -> bool {
        if bytes.len() < 4 {
            verdict is Continue
        } else {
            verdict == TransferableState::<u32, ()>::Done(spec_u32_from_le_bytes(bytes.take(4)))
        }
    }

    proof fn lemma_nothing_taken() {
    }

    fn transfer(&self) -> (bytes: Vec<u8>) {
        u32_to_le_bytes(*self)
    }

    fn receive(state: &mut Option<Vec<u8>>, bytes: &[u8]) -> (verdict: TransferableState<u32, ()>) {
        store(state, bytes);
        match state {
            Some(kept) => {
                if kept.len() < 4 {
                    TransferableState::Continue
                } else {
                    let head = vstd::slice::slice_subrange(kept.as_slice(), 0, 4);
                    TransferableState::Done(u32_from_le_bytes(head))
                }
            },
            None => TransferableState::Continue,
        }
    }
}

/// A signed 32-bit number is sent as the four bytes of its two's complement,
/// lowest first.
impl Transferable for i32 {
    type State = Vec<u8>;

    type Out = i32;

    type Error = ();

    open spec fn encoding(&self) -> Seq<u8> {
        spec_u32_to_le_bytes(*self as u32)
    }

    open spec fn taken(state: Option<Vec<u8>>) -> Seq<u8> {
        stored(state)
    }

    open spec fn answers(bytes: Seq<u8>, verdict: TransferableState<i32, ()>) -> bool {
        if bytes.len() < 4 {
            verdict is Continue
        } else {
            verdict == TransferableState::<i32, ()>::Done(
                spec_u32_from_le_bytes(bytes.take(4)) as i32,
            )
        }
    }

    proof fn lemma_nothing_taken() {
    }

    fn transfer(&self) -> (bytes: Vec<u8>) {
        u32_to_le_bytes(*self as u32)
    }

    fn receive(state: &mut Option<Vec<u8>>, bytes: &[u8]) -> (verdict: TransferableState<i32, ()>) {
        store(state, bytes);
        match state {
            Some(kept) => {
                if kept.len() < 4 {
                    TransferableState::Continue
                } else {
                    let head = vstd::slice::slice_subrange(kept.as_slice(), 0, 4);
                    TransferableState::Done(u32_from_le_bytes(head) as i32)
                }
            },
            None => TransferableState::Continue,
        }
    }
}

/// An array of bytes is sent as it is.
impl<const N: usize> Transferable for [u8; N] {
    type State = Vec<u8>;

    type Out = [u8; N];

    type Error = ();

    open spec fn encoding(&self) -> Seq<u8> {
        self@
    }

    open spec fn taken(state: Option<Vec<u8>>) -> Seq<u8> {
        stored(state)
    }

    open spec fn answers(bytes: Seq<u8>, verdict: TransferableState<[u8; N], ()>) -> bool {
        if bytes.len() < N {
            verdict is Continue
        } else {
            verdict matches TransferableState::Done(array) && array@ == bytes.take(N as int)
        }
    }

    proof fn lemma_nothing_taken() {
    }

    fn transfer(&self) -> (bytes: Vec<u8>) {
        copy_of(self.as_slice())
    }

    fn receive(state: &mut Option<Vec<u8>>, bytes: &[u8]) -> (verdict: TransferableState<
        [u8; N],
        (),
    >) {
        store(state, bytes);
        match state {
            Some(kept) => {
                if kept.len() < N {
                    TransferableState::Continue
                } else {
                    let mut array = [0u8; N];
                    let mut i: usize = 0;
                    while i < N
                        invariant
                            i <= N,
                            N <= kept@.len(),
                            array@.len() == N,
                            array@.take(i as int) == kept@.take(i as int),
                        decreases N - i,
                    {
                        array[i] = kept[i];
                        assert(array@.take(i + 1) =~= kept@.take(i + 1)) by {
                            assert forall|j: int| 0 <= j < i implies array@[j] == kept@[j] by {
                                assert(array@.take(i as int)[j] == kept@.take(i as int)[j]);
                            }
                        }
                        i += 1;
                    }
                    assert(array@.take(N as int) =~= array@);
                    TransferableState::Done(array)
                }
            },
            None => TransferableState::Continue,
        }
    }
}

/// What comes out at the other end is what was sent: a receiver that has
/// taken in the encoding of a byte is done, with that byte.
pub proof fn law_byte_round_trip(value: u8, verdict: TransferableState<u8, ()>)
    requires
        <u8 as Transferable>::answers(value.encoding(), verdict),
    ensures
        verdict == TransferableState::<u8, ()>::Done(value),
{
}

/// A receiver that has taken in the encoding of a number is done, with that
/// number; with fewer bytes it asks for more.
pub proof fn law_u32_round_trip(value: u32, verdict: TransferableState<u32, ()>, sent: int)
    requires
        0 <= sent <= 4,
        <u32 as Transferable>::answers(value.encoding().take(sent), verdict),
    ensures
        sent < 4 ==> verdict is Continue,
        sent == 4 ==> verdict == TransferableState::<u32, ()>::Done(value),
{
    lemma_auto_spec_u32_to_from_le_bytes();
    assert(spec_u32_to_le_bytes(value).take(4) =~= spec_u32_to_le_bytes(value));
}

/// A receiver that has taken in the encoding of a signed number is done,
/// with that number.
pub proof fn law_i32_round_trip(value: i32, verdict: TransferableState<i32, ()>)
    requires
        <i32 as Transferable>::answers(value.encoding(), verdict),
    ensures
        verdict == TransferableState::<i32, ()>::Done(value),
{
    lemma_auto_spec_u32_to_from_le_bytes();
    assert(spec_u32_to_le_bytes(value as u32).take(4) =~= spec_u32_to_le_bytes(value as u32));
    assert((value as u32) as i32 == value) by (bit_vector);
}

/// A receiver that has taken in an array is done, with an array of the same
/// bytes.
pub proof fn law_array_round_trip<const N: usize>(
    value: [u8; N],
    verdict: TransferableState<[u8; N], ()>,
)
    requires
        <[u8; N] as Transferable>::answers(value.encoding(), verdict),
    ensures
        verdict matches TransferableState::Done(array) && array@ == value@,
{
    assert(value@.take(N as int) =~= value@);
}

} // verus!
