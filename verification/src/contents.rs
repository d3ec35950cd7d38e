//! What a store holds, as a mathematical map, and what each operation does
//! to it.
//!
//! The functions here are the meaning of the store's operations; the laws
//! that follow them are what a user of the store may rely on.

use crate::category::{
    composite_key, composite_keys, lemma_composite_key_injective,
    lemma_disjoint_prefixes_never_collide, lemma_same_key_distinct_categories, prefixes_overlap,
    DataCategory,
};
use vstd::prelude::*;

verus! {

/// The record under each composite key.
pub type Contents = Map<Seq<u8>, Seq<u8>>;

/// The record stored for `(c, key)`, if there is one.
pub open spec fn lookup(m: Contents, c: DataCategory, key: Seq<u8>) -> Option<Seq<u8>> {
    if m.contains_key(composite_key(c, key)) {
        Some(m[composite_key(c, key)])
    } else {
        None
    }
}

/// Whether a record is stored for `(c, key)`.
pub open spec fn present(m: Contents, c: DataCategory, key: Seq<u8>) -> bool {
    m.contains_key(composite_key(c, key))
}

/// The contents after `value` is stored for `(c, key)`, replacing any record
/// that was there.
pub open spec fn put(m: Contents, c: DataCategory, key: Seq<u8>, value: Seq<u8>) -> Contents {
    m.insert(composite_key(c, key), value)
}

/// The contents after the record for `(c, key)`, if any, is removed.
pub open spec fn delete(m: Contents, c: DataCategory, key: Seq<u8>) -> Contents {
    m.remove(composite_key(c, key))
}

/// The records stored for each of `keys`, in the same order.
pub open spec fn lookup_all(m: Contents, c: DataCategory, keys: Seq<Seq<u8>>) -> Seq<
    Option<Seq<u8>>,
> {
    Seq::new(keys.len(), |i: int| lookup(m, c, keys[i]))
}

/// The contents after `values[0]` is stored for `keys[0]`, then `values[1]`
/// for `keys[1]`, and so on to the end: a key that occurs twice keeps the
/// value of its last occurrence.
pub open spec fn put_all(
    m: Contents,
    c: DataCategory,
    keys: Seq<Seq<u8>>,
    values: Seq<Seq<u8>>,
) -> Contents
    recommends
        keys.len() == values.len(),
    decreases keys.len(),
{
    if keys.len() == 0 {
        m
    } else {
        put(put_all(m, c, keys.drop_last(), values.drop_last()), c, keys.last(), values.last())
    }
}

/// The contents after the records for all of `keys` are removed.
pub open spec fn delete_all(m: Contents, c: DataCategory, keys: Seq<Seq<u8>>) -> Contents {
    m.remove_keys(composite_keys(c, keys).to_set())
}

/// One change made to the contents by an operation of the store.
pub enum Change {
    /// A single insert.
    Put { c: DataCategory, key: Seq<u8>, value: Seq<u8> },
    /// A single removal.
    Delete { c: DataCategory, key: Seq<u8> },
    /// A batch insert; it changes nothing unless it has as many values as keys.
    PutAll { c: DataCategory, keys: Seq<Seq<u8>>, values: Seq<Seq<u8>> },
    /// A batch removal.
    DeleteAll { c: DataCategory, keys: Seq<Seq<u8>> },
}

impl Change {
    /// The contents after this change is made to `m`.
    pub open spec fn apply(self, m: Contents) -> Contents {
        match self {
            Change::Put { c, key, value } => put(m, c, key, value),
            Change::Delete { c, key } => delete(m, c, key),
            Change::PutAll { c, keys, values } => if keys.len() == values.len() {
                put_all(m, c, keys, values)
            } else {
                m
            },
            Change::DeleteAll { c, keys } => delete_all(m, c, keys),
        }
    }

    /// Whether this change stores a record under the composite key `ck`.
    pub open spec fn writes(self, ck: Seq<u8>) -> bool {
        match self {
            Change::Put { c, key, .. } => composite_key(c, key) == ck,
            Change::PutAll { c, keys, values } => keys.len() == values.len() && composite_keys(
                c,
                keys,
            ).contains(ck),
            Change::Delete { .. } | Change::DeleteAll { .. } => false,
        }
    }
}

/// The contents of a store that started empty and underwent `changes`, in
/// order.
pub open spec fn history(changes: Seq<Change>) -> Contents
    decreases changes.len(),
{
    if changes.len() == 0 {
        Map::empty()
    } else {
        changes.last().apply(history(changes.drop_last()))
    }
}

/// Nothing can be read from a store that nothing was written to.
pub proof fn lemma_empty_lookup(c: DataCategory, key: Seq<u8>)
    ensures
        lookup(Map::empty(), c, key) == None::<Seq<u8>>,
        !present(Map::empty(), c, key),
{
}

/// Whatever else has happened to a store, a record that was never written
/// reads as absent.
pub proof fn lemma_unwritten_is_absent(changes: Seq<Change>, c: DataCategory, key: Seq<u8>)
    requires
        forall|i: int|
            0 <= i < changes.len() ==> !(#[trigger] changes[i]).writes(composite_key(c, key)),
    ensures
        lookup(history(changes), c, key) == None::<Seq<u8>>,
        !present(history(changes), c, key),
    decreases changes.len(),
{
    if changes.len() > 0 {
        let earlier = changes.drop_last();
        assert forall|i: int| 0 <= i < earlier.len() implies !(#[trigger] earlier[i]).writes(
            composite_key(c, key),
        ) by {
            assert(earlier[i] == changes[i]);
        }
        lemma_unwritten_is_absent(earlier, c, key);
        if let Change::PutAll { c: batch_category, keys, values } = changes.last() {
            if keys.len() == values.len() {
                lemma_put_all_elsewhere(history(earlier), batch_category, keys, values, c, key);
            }
        }
    }
}

/// A record is present exactly when reading it yields a value.
pub proof fn lemma_present_lookup(m: Contents, c: DataCategory, key: Seq<u8>)
    ensures
        present(m, c, key) <==> lookup(m, c, key) is Some,
{
}

/// What was stored is what is read back.
pub proof fn lemma_put_lookup(m: Contents, c: DataCategory, key: Seq<u8>, value: Seq<u8>)
    ensures
        lookup(put(m, c, key, value), c, key) == Some(value),
        present(put(m, c, key, value), c, key),
{
}

/// A second value stored for the same record replaces the first, as if the
/// first had never been stored.
pub proof fn lemma_put_overwrites(
    m: Contents,
    c: DataCategory,
    key: Seq<u8>,
    first: Seq<u8>,
    second: Seq<u8>,
)
    ensures
        put(put(m, c, key, first), c, key, second) == put(m, c, key, second),
{
    assert(put(put(m, c, key, first), c, key, second) =~= put(m, c, key, second));
}

/// Storing a record changes no record with another composite key.
pub proof fn lemma_put_elsewhere(
    m: Contents,
    c: DataCategory,
    key: Seq<u8>,
    value: Seq<u8>,
    c2: DataCategory,
    key2: Seq<u8>,
)
    requires
        composite_key(c2, key2) != composite_key(c, key),
    ensures
        lookup(put(m, c, key, value), c2, key2) == lookup(m, c2, key2),
        present(put(m, c, key, value), c2, key2) == present(m, c2, key2),
{
}

/// After a removal the record is gone, whether or not it was there before;
/// removing an absent record changes nothing, so removing twice is removing
/// once.
pub proof fn lemma_delete_lookup(m: Contents, c: DataCategory, key: Seq<u8>)
    ensures
        lookup(delete(m, c, key), c, key) == None::<Seq<u8>>,
        !present(delete(m, c, key), c, key),
        !present(m, c, key) ==> delete(m, c, key) == m,
        delete(delete(m, c, key), c, key) == delete(m, c, key),
{
    if !present(m, c, key) {
        assert(delete(m, c, key) =~= m);
    }
    assert(delete(delete(m, c, key), c, key) =~= delete(m, c, key));
}

/// Removing a record changes no record with another composite key.
pub proof fn lemma_delete_elsewhere(
    m: Contents,
    c: DataCategory,
    key: Seq<u8>,
    c2: DataCategory,
    key2: Seq<u8>,
)
    requires
        composite_key(c2, key2) != composite_key(c, key),
    ensures
        lookup(delete(m, c, key), c2, key2) == lookup(m, c2, key2),
        present(delete(m, c, key), c2, key2) == present(m, c2, key2),
{
}

/// A batch read answers each key on its own, at the key's own position.
pub proof fn lemma_lookup_all_each(m: Contents, c: DataCategory, keys: Seq<Seq<u8>>, i: int)
    requires
        0 <= i < keys.len(),
    ensures
        lookup_all(m, c, keys).len() == keys.len(),
        lookup_all(m, c, keys)[i] == lookup(m, c, keys[i]),
{
}

/// After a batch insert, a key of the batch reads as the value given at its
/// last occurrence in the batch.
pub proof fn lemma_put_all_lookup(
    m: Contents,
    c: DataCategory,
    keys: Seq<Seq<u8>>,
    values: Seq<Seq<u8>>,
    i: int,
)
    requires
        keys.len() == values.len(),
        0 <= i < keys.len(),
        forall|j: int| i < j < keys.len() ==> keys[j] != keys[i],
    ensures
        lookup(put_all(m, c, keys, values), c, keys[i]) == Some(values[i]),
    decreases keys.len(),
{
    if i < keys.len() - 1 {
        lemma_put_all_lookup(m, c, keys.drop_last(), values.drop_last(), i);
        lemma_composite_key_injective(c, keys.last(), keys[i]);
    }
}

/// A batch insert changes no record whose composite key is not that of a
/// key of the batch.
pub proof fn lemma_put_all_elsewhere(
    m: Contents,
    c: DataCategory,
    keys: Seq<Seq<u8>>,
    values: Seq<Seq<u8>>,
    c2: DataCategory,
    key2: Seq<u8>,
)
    requires
        keys.len() == values.len(),
        !composite_keys(c, keys).contains(composite_key(c2, key2)),
    ensures
        lookup(put_all(m, c, keys, values), c2, key2) == lookup(m, c2, key2),
    decreases keys.len(),
{
    if keys.len() > 0 {
        let all = composite_keys(c, keys);
        let earlier = composite_keys(c, keys.drop_last());
        assert(all[keys.len() - 1] == composite_key(c, keys.last()));
        assert forall|ck: Seq<u8>| earlier.contains(ck) implies all.contains(ck) by {
            let j = choose|j: int| 0 <= j < earlier.len() && earlier[j] == ck;
            assert(all[j] == ck);
        }
        lemma_put_all_elsewhere(m, c, keys.drop_last(), values.drop_last(), c2, key2);
    }
}

/// Removing nothing changes nothing.
pub proof fn lemma_delete_all_none(m: Contents, c: DataCategory)
    ensures
        delete_all(m, c, Seq::empty()) == m,
{
    assert(delete_all(m, c, Seq::empty()) =~= m);
}

/// Removing a batch is removing its keys one after another.
pub proof fn lemma_delete_all_push(m: Contents, c: DataCategory, keys: Seq<Seq<u8>>, key: Seq<u8>)
    ensures
        delete_all(m, c, keys.push(key)) == delete(delete_all(m, c, keys), c, key),
{
    let before = composite_keys(c, keys);
    let after = composite_keys(c, keys.push(key));
    assert forall|ck: Seq<u8>| after.contains(ck) <==> before.contains(ck) || ck == composite_key(
        c,
        key,
    ) by {
        if before.contains(ck) {
            let j = choose|j: int| 0 <= j < before.len() && before[j] == ck;
            assert(after[j] == ck);
        }
        if ck == composite_key(c, key) {
            assert(after[keys.len() as int] == ck);
        }
        if after.contains(ck) {
            let j = choose|j: int| 0 <= j < after.len() && after[j] == ck;
            if j < keys.len() {
                assert(before[j] == ck);
            }
        }
    }
    assert(delete_all(m, c, keys.push(key)) =~= delete(delete_all(m, c, keys), c, key));
}

/// After a batch removal every key of the batch is absent, and every other
/// record is as it was: only records that were present can have been
/// removed.
pub proof fn lemma_delete_all_lookup(
    m: Contents,
    c: DataCategory,
    keys: Seq<Seq<u8>>,
    c2: DataCategory,
    key2: Seq<u8>,
)
    ensures
        lookup(delete_all(m, c, keys), c2, key2) == if composite_keys(c, keys).contains(
            composite_key(c2, key2),
        ) {
            None
        } else {
            lookup(m, c2, key2)
        },
        delete_all(m, c, keys).submap_of(m),
{
}

/// A key of a removed batch is absent afterwards.
pub proof fn lemma_delete_all_member(m: Contents, c: DataCategory, keys: Seq<Seq<u8>>, i: int)
    requires
        0 <= i < keys.len(),
    ensures
        lookup(delete_all(m, c, keys), c, keys[i]) == None::<Seq<u8>>,
{
    assert(composite_keys(c, keys)[i] == composite_key(c, keys[i]));
}

/// A key of the same category that is not in a removed batch keeps its
/// record.
pub proof fn lemma_delete_all_other(
    m: Contents,
    c: DataCategory,
    keys: Seq<Seq<u8>>,
    key2: Seq<u8>,
)
    requires
        !keys.contains(key2),
    ensures
        lookup(delete_all(m, c, keys), c, key2) == lookup(m, c, key2),
{
    if composite_keys(c, keys).contains(composite_key(c, key2)) {
        let j = choose|j: int|
            0 <= j < keys.len() && composite_keys(c, keys)[j] == composite_key(c, key2);
        lemma_composite_key_injective(c, keys[j], key2);
        assert(keys[j] == key2);
    }
}

/// Within one category, storing or removing the record of one raw key changes
/// the record of no other raw key.
pub proof fn lemma_keys_independent(
    m: Contents,
    c: DataCategory,
    key: Seq<u8>,
    value: Seq<u8>,
    key2: Seq<u8>,
)
    requires
        key2 != key,
    ensures
        lookup(put(m, c, key, value), c, key2) == lookup(m, c, key2),
        lookup(delete(m, c, key), c, key2) == lookup(m, c, key2),
{
    lemma_composite_key_injective(c, key2, key);
}

/// Storing or removing a record of one category changes no record of a
/// category whose prefix does not overlap with its prefix, whatever the raw
/// keys are.
pub proof fn lemma_disjoint_categories_independent(
    m: Contents,
    c: DataCategory,
    key: Seq<u8>,
    value: Seq<u8>,
    c2: DataCategory,
    key2: Seq<u8>,
)
    requires
        !prefixes_overlap(c, c2),
    ensures
        lookup(put(m, c, key, value), c2, key2) == lookup(m, c2, key2),
        lookup(delete(m, c, key), c2, key2) == lookup(m, c2, key2),
{
    lemma_disjoint_prefixes_never_collide(c, c2, key, key2);
}

/// The same raw key under two different categories is stored and read
/// independently: neither record replaces the other.
pub proof fn lemma_categories_independent(
    m: Contents,
    c1: DataCategory,
    c2: DataCategory,
    key: Seq<u8>,
    v1: Seq<u8>,
    v2: Seq<u8>,
)
    requires
        c1 != c2,
    ensures
        lookup(put(put(m, c1, key, v1), c2, key, v2), c1, key) == Some(v1),
        lookup(put(put(m, c1, key, v1), c2, key, v2), c2, key) == Some(v2),
        lookup(delete(put(put(m, c1, key, v1), c2, key, v2), c2, key), c1, key) == Some(v1),
{
    lemma_same_key_distinct_categories(c1, c2, key);
}

} // verus!
