//! Lists of byte strings as bytes.
//!
//! A list is written as its items one after the other, each behind its length
//! as eight bytes, lowest first. Everything that a snapshot holds is written
//! as such a list, whose items may be lists again.

use vstd::prelude::*;
use vstd::bytes::{
    lemma_auto_spec_u64_to_from_le_bytes, spec_u64_from_le_bytes, spec_u64_to_le_bytes,
    u64_from_le_bytes, u64_to_le_bytes,
};
use vstd::slice::slice_subrange;
use crate::wipe::wipe_bytes;

verus! {

/// The number of bytes that a length is written in.
pub const LENGTH_SIZE: usize = 8;

/// A byte string behind its length.
pub open spec fn framed(item: Seq<u8>) -> Seq<u8> {
    spec_u64_to_le_bytes(item.len() as u64) + item
}

/// The bytes of a list of byte strings.
pub open spec fn pack(items: Seq<Seq<u8>>) -> Seq<u8>
    decreases items.len(),
{
    if items.len() == 0 {
        Seq::empty()
    } else {
        pack(items.drop_last()) + framed(items.last())
    }
}

/// The list of byte strings that `bytes` are the bytes of, if there is one.
pub open spec fn unpack(bytes: Seq<u8>) -> Option<Seq<Seq<u8>>>
    decreases bytes.len(),
{
    if bytes.len() == 0 {
        Some(Seq::empty())
    } else if bytes.len() < LENGTH_SIZE {
        None
    } else {
        let n = spec_u64_from_le_bytes(bytes.take(LENGTH_SIZE as int)) as int;
        if n > bytes.len() - LENGTH_SIZE {
            None
        } else {
            match unpack(bytes.skip(LENGTH_SIZE + n)) {
                Some(rest) => Some(
                    seq![bytes.subrange(LENGTH_SIZE as int, LENGTH_SIZE + n)] + rest,
                ),
                None => None,
            }
        }
    }
}

/// Whether the length of every item can be written in eight bytes.
pub open spec fn fits(items: Seq<Seq<u8>>) -> bool {
    forall|i: int| 0 <= i < items.len() ==> (#[trigger] items[i]).len() <= u64::MAX
}

/// The bytes of a list start with its first item.
pub proof fn lemma_pack_front(items: Seq<Seq<u8>>)
    requires
        items.len() > 0,
    ensures
        pack(items) == framed(items.first()) + pack(items.drop_first()),
    decreases items.len(),
{
    if items.len() == 1 {
        assert(items.drop_last() =~= Seq::<Seq<u8>>::empty());
        assert(items.drop_first() =~= Seq::<Seq<u8>>::empty());
        assert(pack(items) =~= framed(items.first()) + pack(items.drop_first()));
    } else {
        lemma_pack_front(items.drop_last());
        assert(items.drop_last().drop_first() =~= items.drop_first().drop_last());
        assert(items.drop_last().first() == items.first());
        assert(items.drop_first().last() == items.last());
        assert(pack(items) =~= framed(items.first()) + pack(items.drop_first()));
    }
}

/// What was packed comes out again.
pub proof fn lemma_unpack_pack(items: Seq<Seq<u8>>)
    requires
        fits(items),
    ensures
        unpack(pack(items)) == Some(items),
    decreases items.len(),
{
    if items.len() > 0 {
        let first = items.first();
        let rest = items.drop_first();
        let bytes = pack(items);
        lemma_pack_front(items);
        lemma_auto_spec_u64_to_from_le_bytes();
        assert(fits(rest)) by {
            assert forall|i: int| 0 <= i < rest.len() implies (#[trigger] rest[i]).len()
                <= u64::MAX by {
                assert(rest[i] == items[i + 1]);
            }
        }
        lemma_unpack_pack(rest);
        let head = spec_u64_to_le_bytes(first.len() as u64);
        assert(bytes.take(LENGTH_SIZE as int) =~= head);
        assert(bytes.skip(LENGTH_SIZE + first.len()) =~= pack(rest));
        assert(bytes.subrange(LENGTH_SIZE as int, LENGTH_SIZE + first.len()) =~= first);
        assert(seq![first] + rest =~= items);
    }
}

/// The byte strings of `items`.
pub open spec fn views_of(items: Seq<Vec<u8>>) -> Seq<Seq<u8>> {
    items.map_values(|item: Vec<u8>| item@)
}

/// The byte strings that `items` are parts of other bytes.
pub open spec fn slices_of(items: Seq<&[u8]>) -> Seq<Seq<u8>> {
    items.map_values(|item: &[u8]| item@)
}

/// Appends `item` behind its length to `out`.
pub fn put(out: &mut Vec<u8>, item: &[u8])
    ensures
        final(out)@ == old(out)@ + framed(item@),
{
    let head = u64_to_le_bytes(item.len() as u64);
    let ghost before = out@;
    let mut i: usize = 0;
    while i < head.len()
        invariant
            i <= head@.len(),
            out@ == before + head@.take(i as int),
        decreases head@.len() - i,
    {
        out.push(head[i]);
        i += 1;
    }
    assert(head@.take(head@.len() as int) =~= head@);
    let mut j: usize = 0;
    while j < item.len()
        invariant
            j <= item@.len(),
            out@ == before + head@ + item@.take(j as int),
        decreases item@.len() - j,
    {
        out.push(item[j]);
        j += 1;
    }
    assert(item@.take(item@.len() as int) =~= item@);
    assert(out@ =~= before + framed(item@));
}

/// Writes a list of byte strings as bytes.
pub fn pack_items(items: &Vec<Vec<u8>>) -> (bytes: Vec<u8>)
    ensures
        bytes@ == pack(views_of(items@)),
        fits(views_of(items@)),
{
    let mut bytes: Vec<u8> = Vec::new();
    let mut i: usize = 0;
    assert(views_of(items@).take(0) =~= Seq::<Seq<u8>>::empty());
    while i < items.len()
        invariant
            i <= items@.len(),
            bytes@ == pack(views_of(items@).take(i as int)),
        decreases items@.len() - i,
    {
        put(&mut bytes, items[i].as_slice());
        proof {
            let next = views_of(items@).take(i + 1);
            assert(next.drop_last() =~= views_of(items@).take(i as int));
            assert(next.last() == items@[i as int]@);
        }
        i += 1;
    }
    assert(views_of(items@).take(i as int) =~= views_of(items@));
    assert forall|j: int| 0 <= j < views_of(items@).len() implies (#[trigger] views_of(
        items@,
    )[j]).len() <= u64::MAX by {
        assert(views_of(items@)[j] == items@[j]@);
        assert(items@[j].len() <= usize::MAX);
    }
    bytes
}

/// Overwrites every item with zeros and empties the list.
pub fn wipe_items(items: &mut Vec<Vec<u8>>)
    ensures
        final(items)@.len() == 0,
{
    while items.len() > 0
        invariant
            true,
        decreases items@.len(),
    {
        match items.pop() {
            Some(item) => {
                let mut item = item;
                wipe_bytes(&mut item);
            },
            None => {},
        }
    }
}

/// Writes a list of byte strings as bytes, and wipes the list.
pub fn pack_and_wipe(items: Vec<Vec<u8>>) -> (bytes: Vec<u8>)
    ensures
        bytes@ == pack(views_of(items@)),
        fits(views_of(items@)),
{
    let bytes = pack_items(&items);
    let mut items = items;
    wipe_items(&mut items);
    bytes
}

/// Reads bytes as a list of byte strings. The items are parts of `bytes`:
/// nothing is copied.
pub fn unpack_items<'a>(bytes: &'a [u8]) -> (items: Option<Vec<&'a [u8]>>)
    ensures
        match items {
            Some(items) => unpack(bytes@) == Some(slices_of(items@)),
            None => unpack(bytes@) is None,
        },
{
    let mut items: Vec<&'a [u8]> = Vec::new();
    let mut pos: usize = 0;
    proof {
        assert(bytes@.skip(0) =~= bytes@);
        assert(slices_of(items@) =~= Seq::<Seq<u8>>::empty());
        match unpack(bytes@) {
            Some(all) => {
                assert(slices_of(items@) + all =~= all);
            },
            None => {},
        }
    }
    while pos < bytes.len()
        invariant
            pos <= bytes@.len(),
            unpack(bytes@) == match unpack(bytes@.skip(pos as int)) {
                Some(rest) => Some(slices_of(items@) + rest),
                None => None,
            },
        decreases bytes@.len() - pos,
    {
        let ghost tail = bytes@.skip(pos as int);
        if bytes.len() - pos < LENGTH_SIZE {
            return None;
        }
        let head = slice_subrange(bytes, pos, pos + LENGTH_SIZE);
        assert(head@ =~= tail.take(LENGTH_SIZE as int));
        let n = u64_from_le_bytes(head);
        if n > (bytes.len() - pos - LENGTH_SIZE) as u64 {
            return None;
        }
        let n = n as usize;
        let start = pos + LENGTH_SIZE;
        let item = slice_subrange(bytes, start, start + n);
        let ghost parsed = slices_of(items@);
        items.push(item);
        proof {
            assert(item@ =~= tail.subrange(LENGTH_SIZE as int, LENGTH_SIZE + n));
            assert(tail.skip(LENGTH_SIZE + n) =~= bytes@.skip(start + n));
            assert(slices_of(items@) =~= parsed.push(item@));
            match unpack(bytes@.skip(start + n)) {
                Some(rest) => {
                    assert(parsed + (seq![item@] + rest) =~= slices_of(items@) + rest);
                },
                None => {},
            }
        }
        pos = start + n;
    }
    proof {
        assert(bytes@.skip(pos as int) =~= Seq::<u8>::empty());
        assert(slices_of(items@) + Seq::<Seq<u8>>::empty() =~= slices_of(items@));
    }
    Some(items)
}

} // verus!
