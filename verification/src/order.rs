//! The order of byte strings: lexicographic, byte by byte.

use vstd::prelude::*;

verus! {

/// Whether `a` comes before `b`: at the first position where they differ `a`
/// has the smaller byte, or `a` ends there and `b` goes on.
pub open spec fn precedes(a: Seq<u8>, b: Seq<u8>) -> bool
    decreases a.len(),
{
    if b.len() == 0 {
        false
    } else if a.len() == 0 {
        true
    } else if a[0] != b[0] {
        a[0] < b[0]
    } else {
        precedes(a.drop_first(), b.drop_first())
    }
}

/// Whether the byte strings of `keys` stand in strictly ascending order.
pub open spec fn ascending(keys: Seq<Seq<u8>>) -> bool {
    forall|i: int, j: int| 0 <= i < j < keys.len() ==> precedes(#[trigger] keys[i], #[trigger] keys[j])
}

/// No byte string comes before itself.
pub proof fn lemma_precedes_irreflexive(a: Seq<u8>)
    ensures
        !precedes(a, a),
    decreases a.len(),
{
    if a.len() > 0 {
        lemma_precedes_irreflexive(a.drop_first());
    }
}

/// The order is transitive.
pub proof fn lemma_precedes_transitive(a: Seq<u8>, b: Seq<u8>, c: Seq<u8>)
    requires
        precedes(a, b),
        precedes(b, c),
    ensures
        precedes(a, c),
    decreases a.len(),
{
    if a.len() > 0 && a[0] == b[0] && b[0] == c[0] {
        lemma_precedes_transitive(a.drop_first(), b.drop_first(), c.drop_first());
    }
}

/// How two byte strings compare.
#[derive(Clone, Copy, PartialEq, Eq, Structural, Debug)]
pub enum Rank {
    Before,
    Same,
    After,
}

/// The rank of `a` with respect to `b`.
pub open spec fn rank(a: Seq<u8>, b: Seq<u8>) -> Rank {
    if a == b {
        Rank::Same
    } else if precedes(a, b) {
        Rank::Before
    } else {
        Rank::After
    }
}

/// Compares two byte strings.
pub fn compare(a: &[u8], b: &[u8]) -> (r: Rank)
    ensures
        r == rank(a@, b@),
        r == Rank::After ==> precedes(b@, a@),
{
    let mut i: usize = 0;
    assert(a@.skip(0) =~= a@ && b@.skip(0) =~= b@);
    while i < a.len() && i < b.len()
        invariant
            i <= a@.len(),
            i <= b@.len(),
            a@.take(i as int) == b@.take(i as int),
            rank(a@, b@) == rank(a@.skip(i as int), b@.skip(i as int)),
            precedes(b@, a@) == precedes(b@.skip(i as int), a@.skip(i as int)),
        decreases a@.len() - i,
    {
        let ghost ra = a@.skip(i as int);
        let ghost rb = b@.skip(i as int);
        assert(ra[0] == a@[i as int] && rb[0] == b@[i as int]);
        if a[i] < b[i] {
            proof {
                lemma_precedes_irreflexive(ra);
            }
            return Rank::Before;
        }
        if a[i] > b[i] {
            proof {
                lemma_precedes_irreflexive(ra);
            }
            return Rank::After;
        }
        proof {
            assert(ra.drop_first() =~= a@.skip(i + 1));
            assert(rb.drop_first() =~= b@.skip(i + 1));
            assert(a@.take(i + 1) =~= a@.take(i as int).push(a@[i as int]));
            assert(b@.take(i + 1) =~= b@.take(i as int).push(b@[i as int]));
            if ra.drop_first() == rb.drop_first() {
                assert(ra =~= seq![ra[0]] + ra.drop_first());
                assert(rb =~= seq![rb[0]] + rb.drop_first());
            }
            if a@ == b@ {
                assert(ra == rb);
            }
            if ra == rb {
                assert(a@ =~= a@.take(i as int) + ra);
                assert(b@ =~= b@.take(i as int) + rb);
            }
        }
        i += 1;
    }
    proof {
        let ra = a@.skip(i as int);
        let rb = b@.skip(i as int);
        assert(a@ =~= a@.take(i as int) + ra);
        assert(b@ =~= b@.take(i as int) + rb);
        if ra.len() == 0 && rb.len() == 0 {
            assert(ra =~= rb);
        }
    }
    if a.len() == b.len() {
        Rank::Same
    } else if i == a.len() {
        Rank::Before
    } else {
        Rank::After
    }
}

} // verus!
