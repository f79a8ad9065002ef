//! Tables keyed by byte strings.
//!
//! A [`Table`] keeps its entries in ascending order of their keys, so that
//! walking it visits the keys in lexicographic order and no key occurs twice.
//! Its mathematical value is the map from the keys to the values.

use vstd::prelude::*;
use crate::mask::copy_of;
use crate::order::{
    Rank, ascending, compare, lemma_precedes_irreflexive, lemma_precedes_transitive, precedes,
};

verus! {

/// Whether `key` is among `keys`.
pub open spec fn present(keys: Seq<Seq<u8>>, key: Seq<u8>) -> bool {
    exists|i: int| 0 <= i < keys.len() && keys[i] == key
}

/// A position of `key` among `keys`.
pub open spec fn slot(keys: Seq<Seq<u8>>, key: Seq<u8>) -> int {
    choose|i: int| 0 <= i < keys.len() && keys[i] == key
}

/// The map that takes each of `keys` to the value at its position.
pub open spec fn entries<T>(keys: Seq<Seq<u8>>, values: Seq<T>) -> Map<Seq<u8>, T> {
    Map::new(|key: Seq<u8>| present(keys, key), |key: Seq<u8>| values[slot(keys, key)])
}

/// In an ascending sequence a key has one position only.
pub proof fn lemma_slot(keys: Seq<Seq<u8>>, i: int)
    requires
        ascending(keys),
        0 <= i < keys.len(),
    ensures
        present(keys, keys[i]),
        slot(keys, keys[i]) == i,
{
    let j = slot(keys, keys[i]);
    lemma_precedes_irreflexive(keys[i]);
    if j < i {
        assert(precedes(keys[j], keys[i]));
    } else if i < j {
        assert(precedes(keys[i], keys[j]));
    }
}

/// A key that falls between two neighbours of an ascending sequence is not in
/// it.
pub proof fn lemma_gap(keys: Seq<Seq<u8>>, i: int, key: Seq<u8>)
    requires
        ascending(keys),
        0 <= i <= keys.len(),
        forall|j: int| 0 <= j < i ==> precedes(#[trigger] keys[j], key),
        i < keys.len() ==> precedes(key, keys[i]),
    ensures
        !present(keys, key),
{
    lemma_precedes_irreflexive(key);
    if present(keys, key) {
        let j = slot(keys, key);
        if j < i {
            assert(precedes(keys[j], key));
        } else if j > i {
            assert(precedes(keys[i], keys[j]));
            lemma_precedes_transitive(key, keys[i], keys[j]);
        }
    }
}

/// Putting a new key in its place keeps the order and adds one entry.
pub proof fn lemma_insert<T>(keys: Seq<Seq<u8>>, values: Seq<T>, i: int, key: Seq<u8>, value: T)
    requires
        ascending(keys),
        keys.len() == values.len(),
        0 <= i <= keys.len(),
        forall|j: int| 0 <= j < i ==> precedes(#[trigger] keys[j], key),
        i < keys.len() ==> precedes(key, keys[i]),
    ensures
        ascending(keys.insert(i, key)),
        entries(keys.insert(i, key), values.insert(i, value)) == entries(keys, values).insert(
            key,
            value,
        ),
{
    let keys2 = keys.insert(i, key);
    let values2 = values.insert(i, value);
    assert forall|a: int, b: int| 0 <= a < b < keys2.len() implies precedes(
        #[trigger] keys2[a],
        #[trigger] keys2[b],
    ) by {
        if b < i {
            assert(precedes(keys[a], keys[b]));
        } else if b == i {
            assert(precedes(keys[a], key));
        } else if a == i {
            if b - 1 > i {
                assert(precedes(keys[i], keys[b - 1]));
                lemma_precedes_transitive(key, keys[i], keys[b - 1]);
            }
        } else if a < i {
            assert(precedes(keys[a], keys[b - 1]));
        } else {
            assert(precedes(keys[a - 1], keys[b - 1]));
        }
    }
    lemma_gap(keys, i, key);
    let before = entries(keys, values).insert(key, value);
    let after = entries(keys2, values2);
    assert forall|k: Seq<u8>| after.dom().contains(k) == before.dom().contains(k) by {
        if present(keys2, k) {
            let j = slot(keys2, k);
            if j < i {
                assert(keys[j] == k);
            } else if j > i {
                assert(keys[j - 1] == k);
            }
        }
        if present(keys, k) {
            let j = slot(keys, k);
            if j < i {
                assert(keys2[j] == k);
            } else {
                assert(keys2[j + 1] == k);
            }
        }
        if k == key {
            assert(keys2[i] == k);
        }
    }
    assert forall|k: Seq<u8>| after.dom().contains(k) implies after[k] == before[k] by {
        let j = slot(keys2, k);
        lemma_slot(keys2, j);
        if j < i {
            lemma_slot(keys, j);
        } else if j > i {
            lemma_slot(keys, j - 1);
        }
    }
    assert(after =~= before);
}

/// Replacing the value at a position replaces the entry of its key.
pub proof fn lemma_update<T>(keys: Seq<Seq<u8>>, values: Seq<T>, i: int, value: T)
    requires
        ascending(keys),
        keys.len() == values.len(),
        0 <= i < keys.len(),
    ensures
        entries(keys, values.update(i, value)) == entries(keys, values).insert(keys[i], value),
{
    let before = entries(keys, values).insert(keys[i], value);
    let after = entries(keys, values.update(i, value));
    lemma_slot(keys, i);
    assert forall|k: Seq<u8>| after.dom().contains(k) implies after[k] == before[k] by {
        let j = slot(keys, k);
        lemma_slot(keys, j);
    }
    assert(after =~= before);
}

/// Taking out a position keeps the order and takes out the entry of its key.
pub proof fn lemma_remove<T>(keys: Seq<Seq<u8>>, values: Seq<T>, i: int)
    requires
        ascending(keys),
        keys.len() == values.len(),
        0 <= i < keys.len(),
    ensures
        ascending(keys.remove(i)),
        entries(keys.remove(i), values.remove(i)) == entries(keys, values).remove(keys[i]),
{
    let keys2 = keys.remove(i);
    let values2 = values.remove(i);
    assert forall|a: int, b: int| 0 <= a < b < keys2.len() implies precedes(
        #[trigger] keys2[a],
        #[trigger] keys2[b],
    ) by {
        let a1 = if a < i { a } else { a + 1 };
        let b1 = if b < i { b } else { b + 1 };
        assert(precedes(keys[a1], keys[b1]));
    }
    let before = entries(keys, values).remove(keys[i]);
    let after = entries(keys2, values2);
    lemma_slot(keys, i);
    assert forall|k: Seq<u8>| after.dom().contains(k) == before.dom().contains(k) by {
        if present(keys2, k) {
            let j = slot(keys2, k);
            let j1 = if j < i { j } else { j + 1 };
            assert(keys[j1] == k);
            lemma_slot(keys, j1);
        }
        if present(keys, k) && k != keys[i] {
            let j = slot(keys, k);
            let j2 = if j < i { j } else { j - 1 };
            assert(keys2[j2] == k);
        }
    }
    assert forall|k: Seq<u8>| after.dom().contains(k) implies after[k] == before[k] by {
        let j = slot(keys2, k);
        lemma_slot(keys2, j);
        let j1 = if j < i { j } else { j + 1 };
        lemma_slot(keys, j1);
    }
    assert(after =~= before);
}

/// What a table can hold: a value with a mathematical value, which says of
/// itself whether it is in order and which can be copied.
pub trait Entry: View + Sized {
    /// Whether the value is in order.
    spec fn valid(&self) -> bool;

    /// A copy of the value.
    fn duplicate(&self) -> (copy: Self)
        requires
            self.valid(),
        ensures
            copy.valid(),
            copy@ == self@,
    ;
}

/// Whether `keys` are the keys of `map`, in ascending order.
pub open spec fn lists<T>(keys: Seq<Seq<u8>>, map: Map<Seq<u8>, T>) -> bool {
    &&& ascending(keys)
    &&& forall|key: Seq<u8>| present(keys, key) <==> map.dom().contains(key)
}

/// The keys of `map` in ascending order, where the map has finitely many.
pub open spec fn ordered_keys<T>(map: Map<Seq<u8>, T>) -> Seq<Seq<u8>> {
    choose|keys: Seq<Seq<u8>>| lists(keys, map)
}

/// Two ascending sequences with the same members are the same.
pub proof fn lemma_ascending_unique(a: Seq<Seq<u8>>, b: Seq<Seq<u8>>)
    requires
        ascending(a),
        ascending(b),
        forall|key: Seq<u8>| present(a, key) <==> present(b, key),
    ensures
        a == b,
    decreases a.len(),
{
    if a.len() == 0 {
        if b.len() > 0 {
            assert(present(b, b[0]));
        }
        assert(a =~= b);
    } else if b.len() == 0 {
        assert(present(a, a[0]));
    } else {
        assert(present(a, a[0]));
        assert(present(b, b[0]));
        let j = slot(b, a[0]);
        let i = slot(a, b[0]);
        lemma_precedes_irreflexive(a[0]);
        if j > 0 {
            assert(precedes(b[0], b[j]));
            if i > 0 {
                assert(precedes(a[0], a[i]));
                lemma_precedes_transitive(a[0], b[0], a[0]);
            }
        }
        assert(a[0] == b[0]);
        let ra = a.drop_first();
        let rb = b.drop_first();
        assert forall|x: int, y: int| 0 <= x < y < ra.len() implies precedes(
            #[trigger] ra[x],
            #[trigger] ra[y],
        ) by {
            assert(precedes(a[x + 1], a[y + 1]));
        }
        assert forall|x: int, y: int| 0 <= x < y < rb.len() implies precedes(
            #[trigger] rb[x],
            #[trigger] rb[y],
        ) by {
            assert(precedes(b[x + 1], b[y + 1]));
        }
        assert forall|key: Seq<u8>| present(ra, key) <==> present(rb, key) by {
            if present(ra, key) {
                let x = slot(ra, key);
                assert(a[x + 1] == key);
                assert(precedes(a[0], a[x + 1]));
                assert(present(a, key));
                let y = slot(b, key);
                if y == 0 {
                    lemma_precedes_irreflexive(key);
                }
                assert(rb[y - 1] == key);
            }
            if present(rb, key) {
                let y = slot(rb, key);
                assert(b[y + 1] == key);
                assert(precedes(b[0], b[y + 1]));
                assert(present(b, key));
                let x = slot(a, key);
                if x == 0 {
                    lemma_precedes_irreflexive(key);
                }
                assert(ra[x - 1] == key);
            }
        }
        lemma_ascending_unique(ra, rb);
        assert(a =~= seq![a[0]] + ra);
        assert(b =~= seq![b[0]] + rb);
    }
}

/// The ordered keys of a map that has a list of keys are that list.
pub proof fn lemma_ordered_keys<T>(keys: Seq<Seq<u8>>, map: Map<Seq<u8>, T>)
    requires
        lists(keys, map),
    ensures
        ordered_keys(map) == keys,
{
    let chosen = ordered_keys(map);
    assert(lists(chosen, map));
    assert forall|key: Seq<u8>| present(chosen, key) <==> present(keys, key) by {
        assert(present(chosen, key) <==> map.dom().contains(key));
    }
    lemma_ascending_unique(chosen, keys);
}

/// A table from byte strings to values of type `V`.
pub struct Table<V> {
    keys: Vec<Vec<u8>>,
    values: Vec<V>,
}

impl<V: Entry> View for Table<V> {
    type V = Map<Seq<u8>, V::V>;

    closed spec fn view(&self) -> Map<Seq<u8>, V::V> {
        entries(self.keys(), self.values())
    }
}

impl<V: Entry> Table<V> {
    /// The keys, in the order in which the table holds them.
    pub closed spec fn keys(&self) -> Seq<Seq<u8>> {
        self.keys@.map_values(|key: Vec<u8>| key@)
    }

    /// The values, each at the position of its key.
    pub closed spec fn values(&self) -> Seq<V::V> {
        self.values@.map_values(|value: V| value@)
    }

    /// Whether the table is in order: one value for each key, the keys
    /// strictly ascending, and every value in order.
    pub closed spec fn wf(&self) -> bool {
        &&& self.keys@.len() == self.values@.len()
        &&& ascending(self.keys())
        &&& forall|i: int| 0 <= i < self.values@.len() ==> (#[trigger] self.values@[i]).valid()
    }

    /// How the map of a table follows from its keys and values.
    pub proof fn lemma_view(&self)
        requires
            self.wf(),
        ensures
            self.keys().len() == self.values().len(),
            ascending(self.keys()),
            self@ == entries(self.keys(), self.values()),
            forall|key: Seq<u8>| self@.dom().contains(key) <==> present(self.keys(), key),
            forall|i: int|
                0 <= i < self.keys().len() ==> self@.dom().contains(#[trigger] self.keys()[i])
                    && self@[self.keys()[i]] == self.values()[i],
            lists(self.keys(), self@),
            ordered_keys(self@) == self.keys(),
            forall|i: int| 0 <= i < self.keys().len() ==> (#[trigger] self.keys()[i]).len() <= usize::MAX,
    {
        assert forall|i: int| 0 <= i < self.keys().len() implies self@.dom().contains(
            #[trigger] self.keys()[i],
        ) && self@[self.keys()[i]] == self.values()[i] by {
            lemma_slot(self.keys(), i);
        }
        lemma_ordered_keys(self.keys(), self@);
        assert forall|i: int| 0 <= i < self.keys().len() implies (#[trigger] self.keys()[i]).len()
            <= usize::MAX by {
            assert(self.keys()[i] == self.keys@[i]@);
            assert(self.keys@[i].len() <= usize::MAX);
        }
    }

    /// An empty table.
    pub fn new() -> (table: Self)
        ensures
            table.wf(),
            table@ == Map::<Seq<u8>, V::V>::empty(),
            table.keys() == Seq::<Seq<u8>>::empty(),
            table.values() == Seq::<V::V>::empty(),
    {
        let table = Table { keys: Vec::new(), values: Vec::new() };
        assert(table.keys() =~= Seq::<Seq<u8>>::empty());
        assert(table.values() =~= Seq::<V::V>::empty());
        assert(table@ =~= Map::<Seq<u8>, V::V>::empty());
        table
    }

    /// The number of entries.
    pub fn len(&self) -> (len: usize)
        requires
            self.wf(),
        ensures
            len == self.keys().len(),
            len == self.values().len(),
    {
        self.keys.len()
    }

    /// The key at a position.
    pub fn key_at(&self, i: usize) -> (key: &[u8])
        requires
            self.wf(),
            i < self.keys().len(),
        ensures
            key@ == self.keys()[i as int],
    {
        self.keys[i].as_slice()
    }

    /// The value at a position.
    pub fn value_at(&self, i: usize) -> (value: &V)
        requires
            self.wf(),
            i < self.keys().len(),
        ensures
            value.valid(),
            value@ == self.values()[i as int],
    {
        &self.values[i]
    }

    /// The first position whose key does not come before `key`, and whether
    /// the key there is `key` itself.
    fn locate(&self, key: &[u8]) -> (place: (usize, bool))
        requires
            self.wf(),
        ensures
            place.0 <= self.keys().len(),
            forall|j: int| 0 <= j < place.0 ==> precedes(#[trigger] self.keys()[j], key@),
            place.1 ==> place.0 < self.keys().len() && self.keys()[place.0 as int] == key@,
            !place.1 && place.0 < self.keys().len() ==> precedes(key@, self.keys()[place.0 as int]),
    {
        let mut i: usize = 0;
        while i < self.keys.len()
            invariant
                self.wf(),
                i <= self.keys().len(),
                forall|j: int| 0 <= j < i ==> precedes(#[trigger] self.keys()[j], key@),
            decreases self.keys().len() - i,
        {
            match compare(self.keys[i].as_slice(), key) {
                Rank::Before => {},
                Rank::Same => {
                    return (i, true);
                },
                Rank::After => {
                    return (i, false);
                },
            }
            i += 1;
        }
        (i, false)
    }

    /// The position of `key`, if the table holds it.
    pub fn find(&self, key: &[u8]) -> (found: Option<usize>)
        requires
            self.wf(),
        ensures
            match found {
                Some(i) => i < self.keys().len() && self.keys()[i as int] == key@
                    && self@.dom().contains(key@),
                None => !self@.dom().contains(key@),
            },
    {
        let (i, there) = self.locate(key);
        proof {
            self.lemma_view();
            if !there {
                lemma_gap(self.keys(), i as int, key@);
            }
        }
        if there {
            Some(i)
        } else {
            None
        }
    }

    /// Whether the table holds `key`.
    pub fn contains(&self, key: &[u8]) -> (yes: bool)
        requires
            self.wf(),
        ensures
            yes == self@.dom().contains(key@),
    {
        self.find(key).is_some()
    }

    /// The value of `key`, if the table holds it.
    pub fn get(&self, key: &[u8]) -> (value: Option<&V>)
        requires
            self.wf(),
        ensures
            match value {
                Some(value) => self@.dom().contains(key@) && value@ == self@[key@] && value.valid(),
                None => !self@.dom().contains(key@),
            },
    {
        match self.find(key) {
            Some(i) => {
                proof {
                    self.lemma_view();
                }
                Some(&self.values[i])
            },
            None => None,
        }
    }

    /// Puts `value` under `key` and hands back the value that was there.
    pub fn insert(&mut self, key: &[u8], value: V) -> (before: Option<V>)
        requires
            old(self).wf(),
            value.valid(),
        ensures
            final(self).wf(),
            final(self)@ == old(self)@.insert(key@, value@),
            match before {
                Some(before) => old(self)@.dom().contains(key@) && before@ == old(self)@[key@]
                    && before.valid(),
                None => !old(self)@.dom().contains(key@),
            },
    {
        let (i, there) = self.locate(key);
        let ghost keys = self.keys();
        let ghost values = self.values();
        proof {
            self.lemma_view();
        }
        if there {
            let before = self.values.remove(i);
            self.values.insert(i, value);
            proof {
                assert(self.values() =~= values.update(i as int, value@));
                assert(self.keys() == keys);
                lemma_update(keys, values, i as int, value@);
            }
            Some(before)
        } else {
            self.keys.insert(i, copy_of(key));
            self.values.insert(i, value);
            proof {
                assert(self.keys() =~= keys.insert(i as int, key@));
                assert(self.values() =~= values.insert(i as int, value@));
                lemma_insert(keys, values, i as int, key@, value@);
                lemma_gap(keys, i as int, key@);
            }
            None
        }
    }

    /// Puts `value` under `key` behind the last entry. The key has to come
    /// after every key of the table.
    pub(crate) fn push_last(&mut self, key: &[u8], value: V)
        requires
            old(self).wf(),
            value.valid(),
            old(self).keys().len() > 0 ==> precedes(old(self).keys().last(), key@),
        ensures
            final(self).wf(),
            final(self).keys() == old(self).keys().push(key@),
            final(self).values() == old(self).values().push(value@),
            final(self)@ == old(self)@.insert(key@, value@),
    {
        let ghost keys = self.keys();
        let ghost values = self.values();
        proof {
            self.lemma_view();
            assert forall|j: int| 0 <= j < keys.len() implies precedes(#[trigger] keys[j], key@) by {
                if j < keys.len() - 1 {
                    assert(precedes(keys[j], keys[keys.len() - 1]));
                    lemma_precedes_transitive(keys[j], keys.last(), key@);
                }
            }
            lemma_insert(keys, values, keys.len() as int, key@, value@);
        }
        self.keys.push(copy_of(key));
        self.values.push(value);
        proof {
            assert(self.keys() =~= keys.push(key@));
            assert(self.values() =~= values.push(value@));
            assert(keys.insert(keys.len() as int, key@) =~= keys.push(key@));
            assert(values.insert(values.len() as int, value@) =~= values.push(value@));
        }
    }

    /// Takes `key` out of the table and hands back its value.
    pub fn remove(&mut self, key: &[u8]) -> (value: Option<V>)
        requires
            old(self).wf(),
        ensures
            final(self).wf(),
            final(self)@ == old(self)@.remove(key@),
            match value {
                Some(value) => old(self)@.dom().contains(key@) && value@ == old(self)@[key@]
                    && value.valid(),
                None => !old(self)@.dom().contains(key@),
            },
    {
        let (i, there) = self.locate(key);
        let ghost keys = self.keys();
        let ghost values = self.values();
        proof {
            self.lemma_view();
        }
        if there {
            self.keys.remove(i);
            let value = self.values.remove(i);
            proof {
                assert(self.keys() =~= keys.remove(i as int));
                assert(self.values() =~= values.remove(i as int));
                lemma_remove(keys, values, i as int);
            }
            Some(value)
        } else {
            proof {
                lemma_gap(keys, i as int, key@);
                assert(self@ =~= old(self)@.remove(key@));
            }
            None
        }
    }

    /// Puts a copy of every entry of `other` into the table. Where both hold a
    /// key, the value of `other` stays.
    pub fn absorb(&mut self, other: &Self)
        requires
            old(self).wf(),
            other.wf(),
        ensures
            final(self).wf(),
            final(self)@ == old(self)@.union_prefer_right(other@),
    {
        let mut i: usize = 0;
        proof {
            other.lemma_view();
            assert(entries(other.keys().take(0), other.values().take(0)) =~= Map::<
                Seq<u8>,
                V::V,
            >::empty());
            assert(self@ =~= old(self)@.union_prefer_right(Map::<Seq<u8>, V::V>::empty()));
        }
        while i < other.keys.len()
            invariant
                self.wf(),
                other.wf(),
                i <= other.keys().len(),
                other.keys().len() == other.values().len(),
                ascending(other.keys()),
                self@ == old(self)@.union_prefer_right(
                    entries(other.keys().take(i as int), other.values().take(i as int)),
                ),
            decreases other.keys().len() - i,
        {
            let ghost keys = other.keys().take(i as int);
            let ghost values = other.values().take(i as int);
            let ghost key = other.keys()[i as int];
            let ghost value = other.values()[i as int];
            self.insert(other.keys[i].as_slice(), other.values[i].duplicate());
            proof {
                assert(other.keys().take(i + 1) =~= keys.push(key));
                assert(other.values().take(i + 1) =~= values.push(value));
                assert(keys.insert(i as int, key) =~= keys.push(key));
                assert(values.insert(i as int, value) =~= values.push(value));
                assert forall|a: int, b: int| 0 <= a < b < keys.len() implies precedes(
                    #[trigger] keys[a],
                    #[trigger] keys[b],
                ) by {
                    assert(precedes(other.keys()[a], other.keys()[b]));
                }
                assert forall|j: int| 0 <= j < i implies precedes(#[trigger] keys[j], key) by {
                    assert(precedes(other.keys()[j], other.keys()[i as int]));
                }
                lemma_insert(keys, values, i as int, key, value);
                assert(self@ =~= old(self)@.union_prefer_right(
                    entries(keys, values).insert(key, value),
                ));
            }
            i += 1;
        }
        proof {
            assert(other.keys().take(i as int) =~= other.keys());
            assert(other.values().take(i as int) =~= other.values());
        }
    }

    /// A copy of the table.
    pub fn duplicate(&self) -> (copy: Self)
        requires
            self.wf(),
        ensures
            copy.wf(),
            copy@ == self@,
            copy.keys() == self.keys(),
            copy.values() == self.values(),
    {
        let mut copy = Self::new();
        let mut i: usize = 0;
        proof {
            self.lemma_view();
            assert(self.keys().take(0) =~= copy.keys());
            assert(self.values().take(0) =~= copy.values());
        }
        while i < self.keys.len()
            invariant
                self.wf(),
                copy.wf(),
                i <= self.keys().len(),
                self.keys().len() == self.values().len(),
                ascending(self.keys()),
                copy.keys() == self.keys().take(i as int),
                copy.values() == self.values().take(i as int),
            decreases self.keys().len() - i,
        {
            proof {
                if i > 0 {
                    assert(copy.keys().last() == self.keys()[i - 1]);
                    assert(precedes(self.keys()[i - 1], self.keys()[i as int]));
                }
            }
            copy.push_last(self.keys[i].as_slice(), self.values[i].duplicate());
            proof {
                assert(self.keys().take(i + 1) =~= self.keys().take(i as int).push(
                    self.keys()[i as int],
                ));
                assert(self.values().take(i + 1) =~= self.values().take(i as int).push(
                    self.values()[i as int],
                ));
            }
            i += 1;
        }
        proof {
            assert(self.keys().take(i as int) =~= self.keys());
            assert(self.values().take(i as int) =~= self.values());
            copy.lemma_view();
        }
        copy
    }
}

} // verus!
