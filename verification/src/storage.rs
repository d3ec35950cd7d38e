//! The records of a store, kept in memory for as long as the value lives.

use crate::category::{
    composite_key, composite_keys, gen_key, gen_keys, lemma_deep_view_bytes, DataCategory,
};
use crate::contents::{
    delete, delete_all, lemma_delete_all_none, lemma_delete_all_push, lookup, lookup_all, present,
    put, put_all, Contents,
};
use crate::error::DatabaseError;
use vstd::prelude::*;

verus! {

/// One stored record: a composite key and the bytes stored under it.
struct Entry {
    key: Vec<u8>,
    value: Vec<u8>,
}

/// No composite key occurs in two entries.
spec fn distinct_keys(entries: Seq<Entry>) -> bool {
    forall|i: int, j: int|
        0 <= i < j < entries.len() ==> (#[trigger] entries[i]).key@ != (#[trigger] entries[j]).key@
}

/// Whether some entry has the composite key `ck`.
spec fn has_key(entries: Seq<Entry>, ck: Seq<u8>) -> bool {
    exists|i: int| 0 <= i < entries.len() && (#[trigger] entries[i]).key@ == ck
}

/// The index of an entry with the composite key `ck`, where there is one.
spec fn index_of(entries: Seq<Entry>, ck: Seq<u8>) -> int {
    choose|i: int| 0 <= i < entries.len() && (#[trigger] entries[i]).key@ == ck
}

/// The map that a list of entries stands for.
spec fn as_map(entries: Seq<Entry>) -> Contents {
    Map::new(
        |ck: Seq<u8>| has_key(entries, ck),
        |ck: Seq<u8>| entries[index_of(entries, ck)].value@,
    )
}

/// Each entry of a list without repeated keys is what the map holds for its
/// key.
proof fn lemma_as_map_entry(entries: Seq<Entry>, i: int)
    requires
        distinct_keys(entries),
        0 <= i < entries.len(),
    ensures
        as_map(entries).contains_key(entries[i].key@),
        as_map(entries)[entries[i].key@] == entries[i].value@,
{
}

/// A list without the key `ck` stands for a map without it.
proof fn lemma_as_map_absent(entries: Seq<Entry>, ck: Seq<u8>)
    requires
        !has_key(entries, ck),
    ensures
        !as_map(entries).contains_key(ck),
{
}

/// Appending an entry with a new key stores its value under that key.
proof fn lemma_as_map_push(entries: Seq<Entry>, e: Entry)
    requires
        distinct_keys(entries),
        !has_key(entries, e.key@),
    ensures
        distinct_keys(entries.push(e)),
        as_map(entries.push(e)) == as_map(entries).insert(e.key@, e.value@),
{
    let after = entries.push(e);
    assert forall|ck: Seq<u8>| has_key(after, ck) <==> has_key(entries, ck) || ck == e.key@ by {
        if has_key(entries, ck) {
            assert(after[index_of(entries, ck)].key@ == ck);
        }
        if ck == e.key@ {
            assert(after[entries.len() as int].key@ == ck);
        }
    }
    assert forall|ck: Seq<u8>| has_key(after, ck) implies #[trigger] as_map(after)[ck] == as_map(
        entries,
    ).insert(e.key@, e.value@)[ck] by {
        let i = index_of(after, ck);
        lemma_as_map_entry(after, i);
        if i < entries.len() {
            lemma_as_map_entry(entries, i);
        }
    }
    assert(as_map(after) =~= as_map(entries).insert(e.key@, e.value@));
}

/// Replacing an entry by one with the same key stores the new value under
/// that key.
proof fn lemma_as_map_update(entries: Seq<Entry>, at: int, e: Entry)
    requires
        distinct_keys(entries),
        0 <= at < entries.len(),
        entries[at].key@ == e.key@,
    ensures
        distinct_keys(entries.update(at, e)),
        as_map(entries.update(at, e)) == as_map(entries).insert(e.key@, e.value@),
{
    let after = entries.update(at, e);
    assert forall|ck: Seq<u8>| has_key(after, ck) <==> has_key(entries, ck) || ck == e.key@ by {
        if has_key(entries, ck) {
            assert(after[index_of(entries, ck)].key@ == ck);
        }
        if ck == e.key@ {
            assert(after[at].key@ == ck);
        }
        if has_key(after, ck) {
            assert(entries[index_of(after, ck)].key@ == ck);
        }
    }
    assert forall|ck: Seq<u8>| has_key(after, ck) implies #[trigger] as_map(after)[ck] == as_map(
        entries,
    ).insert(e.key@, e.value@)[ck] by {
        let i = index_of(after, ck);
        lemma_as_map_entry(after, i);
        lemma_as_map_entry(entries, i);
    }
    assert(as_map(after) =~= as_map(entries).insert(e.key@, e.value@));
}

/// Moving the last entry into the place of another removes that other
/// entry's key and nothing else.
proof fn lemma_as_map_swap_remove(entries: Seq<Entry>, at: int)
    requires
        distinct_keys(entries),
        0 <= at < entries.len(),
    ensures
        distinct_keys(entries.update(at, entries.last()).drop_last()),
        as_map(entries.update(at, entries.last()).drop_last()) == as_map(entries).remove(
            entries[at].key@,
        ),
{
    let after = entries.update(at, entries.last()).drop_last();
    let last = entries.len() - 1;
    // Where the entry now at `i` stood before.
    let origin = |i: int| if i == at { last } else { i };
    assert forall|i: int| 0 <= i < after.len() implies #[trigger] after[i] == entries[origin(
        i,
    )] by {}
    assert forall|i: int, j: int| 0 <= i < j < after.len() implies (#[trigger] after[i]).key@ != (
    #[trigger] after[j]).key@ by {
        assert(entries[origin(i)].key@ != entries[origin(j)].key@);
    }
    assert forall|ck: Seq<u8>| has_key(after, ck) <==> has_key(entries, ck) && ck
        != entries[at].key@ by {
        if has_key(entries, ck) && ck != entries[at].key@ {
            let i = index_of(entries, ck);
            assert(after[if i == last { at } else { i }].key@ == ck);
        }
        if has_key(after, ck) {
            let i = origin(index_of(after, ck));
            assert(entries[i].key@ == ck && entries[at].key@ != entries[i].key@);
        }
    }
    assert forall|ck: Seq<u8>| has_key(after, ck) implies #[trigger] as_map(after)[ck] == as_map(
        entries,
    )[ck] by {
        let i = index_of(after, ck);
        lemma_as_map_entry(after, i);
        lemma_as_map_entry(entries, origin(i));
    }
    assert(as_map(after) =~= as_map(entries).remove(entries[at].key@));
}

/// The records of a store, addressed by category and raw key.
///
/// This is the store as one owner sees it: a plain value, read through `&self`
/// and changed through `&mut self`, with every operation specified exactly.
/// [`MemoryDB`](crate::memory::MemoryDB) shares one such value among threads.
///
/// The view is the map from composite keys to records. A new value holds
/// nothing, and nothing outlives the value.
pub struct Storage {
    entries: Vec<Entry>,
}

impl View for Storage {
    type V = Contents;

    closed spec fn view(&self) -> Contents {
        as_map(self.entries@)
    }
}

impl Storage {
    #[verifier::type_invariant]
    spec fn well_formed(self) -> bool {
        distinct_keys(self.entries@)
    }

    /// A storage holds finitely many records.
    pub proof fn lemma_finite(self)
        ensures
            self@.dom().finite(),
    {
        let keys = self.entries@.map_values(|e: Entry| e.key@);
        assert forall|ck: Seq<u8>| self@.dom().contains(ck) <==> keys.to_set().contains(ck) by {
            if has_key(self.entries@, ck) {
                assert(keys[index_of(self.entries@, ck)] == ck);
            }
            if keys.contains(ck) {
                let i = choose|i: int| 0 <= i < keys.len() && keys[i] == ck;
                assert(self.entries@[i].key@ == ck);
            }
        }
        assert(self@.dom() =~= keys.to_set());
        vstd::seq_lib::seq_to_set_is_finite(keys);
    }

    /// Storage that holds no record.
    pub fn new() -> (storage: Self)
        ensures
            storage@ == Map::<Seq<u8>, Seq<u8>>::empty(),
    {
        let storage = Storage { entries: Vec::new() };
        assert(storage@ =~= Map::<Seq<u8>, Seq<u8>>::empty());
        storage
    }

    /// Reads the record stored for `(c, key)`.
    pub fn get(&self, c: DataCategory, key: &[u8]) -> (r: Option<Vec<u8>>)
        ensures
            r.deep_view() == lookup(self@, c, key@),
    {
        proof {
            use_type_invariant(self);
        }
        let ck = gen_key(&c, key);
        let r = fetch(&self.entries, &ck);
        assert(r.deep_view() =~~= lookup(self@, c, key@));
        r
    }

    /// Whether a record is stored for `(c, key)`.
    pub fn contains(&self, c: DataCategory, key: &[u8]) -> (r: bool)
        ensures
            r == present(self@, c, key@),
    {
        proof {
            use_type_invariant(self);
        }
        let ck = gen_key(&c, key);
        let found = position(&self.entries, &ck);
        proof {
            match found {
                Some(at) => lemma_as_map_entry(self.entries@, at as int),
                None => lemma_as_map_absent(self.entries@, ck@),
            }
        }
        found.is_some()
    }

    /// Stores `value` for `(c, key)`, replacing any record that was there.
    pub fn insert(&mut self, c: DataCategory, key: Vec<u8>, value: Vec<u8>)
        ensures
            final(self)@ == put(old(self)@, c, key@, value@),
    {
        proof {
            use_type_invariant(&*self);
        }
        let ck = gen_key(&c, key.as_slice());
        let mut entries: Vec<Entry> = Vec::new();
        std::mem::swap(&mut entries, &mut self.entries);
        store(&mut entries, ck, value);
        self.entries = entries;
    }

    /// Removes the record for `(c, key)`; does nothing if there is none.
    pub fn remove(&mut self, c: DataCategory, key: &[u8])
        ensures
            final(self)@ == delete(old(self)@, c, key@),
    {
        proof {
            use_type_invariant(&*self);
        }
        let ck = gen_key(&c, key);
        let mut entries: Vec<Entry> = Vec::new();
        std::mem::swap(&mut entries, &mut self.entries);
        discard(&mut entries, &ck);
        self.entries = entries;
    }

    /// Reads the records stored for each of `keys`: the answers come in the
    /// order of the keys, one for each, and a key without a record is
    /// answered with `None` at its position.
    pub fn get_batch(&self, c: DataCategory, keys: &[Vec<u8>]) -> (r: Vec<Option<Vec<u8>>>)
        ensures
            r.deep_view() == lookup_all(self@, c, keys.deep_view()),
    {
        proof {
            use_type_invariant(self);
        }
        let composites = gen_keys(&c, keys);
        let mut out: Vec<Option<Vec<u8>>> = Vec::new();
        let mut i: usize = 0;
        while i < composites.len()
            invariant
                i <= composites.len(),
                composites.len() == keys.len(),
                composites.deep_view() == composite_keys(c, keys.deep_view()),
                distinct_keys(self.entries@),
                out.len() == i,
                forall|j: int|
                    0 <= j < i ==> (#[trigger] out[j]).deep_view() == lookup(
                        self@,
                        c,
                        keys.deep_view()[j],
                    ),
            decreases composites.len() - i,
        {
            let found = fetch(&self.entries, &composites[i]);
            proof {
                lemma_composite_at(c, keys.deep_view(), composites, i as int);
                assert(found.deep_view() =~~= lookup(self@, c, keys.deep_view()[i as int]));
            }
            out.push(found);
            i += 1;
        }
        assert(out.deep_view() =~= lookup_all(self@, c, keys.deep_view()));
        out
    }

    /// Stores `values[i]` for `(c, keys[i])`, for each `i` in order, so that
    /// a key given twice keeps its later value. Where the numbers of keys and
    /// of values differ, nothing is stored and `InvalidData` is returned.
    pub fn insert_batch(&mut self, c: DataCategory, keys: Vec<Vec<u8>>, values: Vec<Vec<u8>>) -> (r:
        Result<(), DatabaseError>)
        ensures
            keys.len() != values.len() ==> r == Err::<(), DatabaseError>(DatabaseError::InvalidData)
                && final(self)@ == old(self)@,
            keys.len() == values.len() ==> r == Ok::<(), DatabaseError>(()) && final(self)@
                == put_all(old(self)@, c, keys.deep_view(), values.deep_view()),
    {
        proof {
            use_type_invariant(&*self);
        }
        if let Err(e) = check_batch(keys.as_slice(), values.as_slice()) {
            return Err(e);
        }
        let composites = gen_keys(&c, keys.as_slice());
        let mut entries: Vec<Entry> = Vec::new();
        std::mem::swap(&mut entries, &mut self.entries);
        let ghost before = as_map(entries@);
        let mut i: usize = 0;
        while i < composites.len()
            invariant
                i <= composites.len(),
                composites.len() == keys.len(),
                keys.len() == values.len(),
                composites.deep_view() == composite_keys(c, keys.deep_view()),
                distinct_keys(entries@),
                as_map(entries@) == put_all(
                    before,
                    c,
                    keys.deep_view().take(i as int),
                    values.deep_view().take(i as int),
                ),
            decreases composites.len() - i,
        {
            let ck = composites[i].clone();
            let value = values[i].clone();
            proof {
                lemma_composite_at(c, keys.deep_view(), composites, i as int);
                lemma_deep_view_bytes(values[i as int]);
                let ks = keys.deep_view().take(i + 1);
                let vs = values.deep_view().take(i + 1);
                assert(ks.drop_last() =~= keys.deep_view().take(i as int));
                assert(vs.drop_last() =~= values.deep_view().take(i as int));
            }
            store(&mut entries, ck, value);
            i += 1;
        }
        proof {
            assert(keys.deep_view().take(i as int) =~= keys.deep_view());
            assert(values.deep_view().take(i as int) =~= values.deep_view());
        }
        self.entries = entries;
        Ok(())
    }

    /// Removes the records for all of `keys`; keys without a record are
    /// passed over.
    pub fn remove_batch(&mut self, c: DataCategory, keys: &[Vec<u8>])
        ensures
            final(self)@ == delete_all(old(self)@, c, keys.deep_view()),
    {
        proof {
            use_type_invariant(&*self);
        }
        let composites = gen_keys(&c, keys);
        let mut entries: Vec<Entry> = Vec::new();
        std::mem::swap(&mut entries, &mut self.entries);
        let ghost before = as_map(entries@);
        proof {
            lemma_delete_all_none(before, c);
            assert(keys.deep_view().take(0) =~= Seq::<Seq<u8>>::empty());
        }
        let mut i: usize = 0;
        while i < composites.len()
            invariant
                i <= composites.len(),
                composites.len() == keys.len(),
                composites.deep_view() == composite_keys(c, keys.deep_view()),
                distinct_keys(entries@),
                as_map(entries@) == delete_all(before, c, keys.deep_view().take(i as int)),
            decreases composites.len() - i,
        {
            proof {
                lemma_composite_at(c, keys.deep_view(), composites, i as int);
                lemma_delete_all_push(
                    before,
                    c,
                    keys.deep_view().take(i as int),
                    keys.deep_view()[i as int],
                );
                assert(keys.deep_view().take(i as int).push(keys.deep_view()[i as int])
                    =~= keys.deep_view().take(i + 1));
            }
            discard(&mut entries, &composites[i]);
            i += 1;
        }
        proof {
            assert(keys.deep_view().take(i as int) =~= keys.deep_view());
        }
        self.entries = entries;
    }
}

impl Default for Storage {
    /// Storage that holds no record.
    fn default() -> (storage: Self)
        ensures
            storage@ == Map::<Seq<u8>, Seq<u8>>::empty(),
    {
        Storage::new()
    }
}

/// Checks that a batch has as many values as keys.
pub fn check_batch(keys: &[Vec<u8>], values: &[Vec<u8>]) -> (r: Result<(), DatabaseError>)
    ensures
        keys.len() == values.len() ==> r == Ok::<(), DatabaseError>(()),
        keys.len() != values.len() ==> r == Err::<(), DatabaseError>(DatabaseError::InvalidData),
{
    if keys.len() != values.len() {
        Err(DatabaseError::InvalidData)
    } else {
        Ok(())
    }
}

/// The composite key built for the `i`-th key of a batch.
proof fn lemma_composite_at(
    c: DataCategory,
    keys: Seq<Seq<u8>>,
    composites: Vec<Vec<u8>>,
    i: int,
)
    requires
        composites.deep_view() == composite_keys(c, keys),
        0 <= i < keys.len(),
    ensures
        composites.len() == keys.len(),
        composites[i]@ == composite_key(c, keys[i]),
{
    assert(composites.deep_view().len() == composites.len());
    assert(composites.deep_view()[i] == composites[i].deep_view());
    lemma_deep_view_bytes(composites[i]);
}

/// Stores `value` under the composite key `ck`.
fn store(entries: &mut Vec<Entry>, ck: Vec<u8>, value: Vec<u8>)
    requires
        distinct_keys(old(entries)@),
    ensures
        distinct_keys(final(entries)@),
        as_map(final(entries)@) == as_map(old(entries)@).insert(ck@, value@),
{
    let found = position(entries, &ck);
    let entry = Entry { key: ck, value };
    match found {
        Some(at) => {
            proof {
                lemma_as_map_update(entries@, at as int, entry);
            }
            entries[at] = entry;
        },
        None => {
            proof {
                lemma_as_map_push(entries@, entry);
            }
            entries.push(entry);
        },
    }
}

/// Removes the entry under the composite key `ck`, if there is one.
fn discard(entries: &mut Vec<Entry>, ck: &Vec<u8>)
    requires
        distinct_keys(old(entries)@),
    ensures
        distinct_keys(final(entries)@),
        as_map(final(entries)@) == as_map(old(entries)@).remove(ck@),
{
    match position(entries, ck) {
        Some(at) => {
            proof {
                lemma_as_map_swap_remove(entries@, at as int);
            }
            entries.swap_remove(at);
        },
        None => {
            proof {
                lemma_as_map_absent(entries@, ck@);
                assert(as_map(entries@) =~= as_map(entries@).remove(ck@));
            }
        },
    }
}

/// A copy of the value under the composite key `ck`, if there is one.
fn fetch(entries: &Vec<Entry>, ck: &Vec<u8>) -> (r: Option<Vec<u8>>)
    requires
        distinct_keys(entries@),
    ensures
        match r {
            Some(value) => as_map(entries@).contains_key(ck@) && value@ == as_map(entries@)[ck@],
            None => !as_map(entries@).contains_key(ck@),
        },
{
    match position(entries, ck) {
        Some(at) => {
            proof {
                lemma_as_map_entry(entries@, at as int);
            }
            Some(entries[at].value.clone())
        },
        None => {
            proof {
                lemma_as_map_absent(entries@, ck@);
            }
            None
        },
    }
}

/// The index of the entry whose key is `ck`, if there is one.
fn position(entries: &Vec<Entry>, ck: &Vec<u8>) -> (r: Option<usize>)
    ensures
        match r {
            Some(i) => i < entries.len() && entries[i as int].key@ == ck@,
            None => !has_key(entries@, ck@),
        },
{
    let mut i: usize = 0;
    while i < entries.len()
        invariant
            i <= entries.len(),
            forall|j: int| 0 <= j < i ==> (#[trigger] entries[j]).key@ != ck@,
        decreases entries.len() - i,
    {
        if entries[i].key == *ck {
            return Some(i);
        }
        i += 1;
    }
    None
}

} // verus!
