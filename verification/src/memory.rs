//! The store: one [`Storage`] shared by all who hold the store.

use crate::category::DataCategory;
use crate::error::{is_lock_error, map_rwlock_err, DatabaseError};
use crate::contents::{lookup_all, Contents};
use crate::storage::{check_batch, Storage};
use crate::sync::{made_with, new_lock};
use std::sync::{Arc, PoisonError, RwLock};
use vstd::prelude::*;

verus! {

/// An in-memory store of records addressed by category and raw key.
///
/// All clones of a store are the same store. Its records lie behind one
/// reader-writer lock: `get`, `get_batch` and `contains` share the lock,
/// while `insert`, `insert_batch`, `remove` and `remove_batch` each hold it
/// alone. Every operation takes the lock once, does all of its work on the
/// [`Storage`] behind it, and lets the lock go; a batch is therefore never
/// seen half done.
///
/// A store is made empty. After that, what an operation finds behind the
/// lock is what the last writer left there, so the contracts of the
/// operations speak of failure and of little else. What an operation reads
/// or changes is stated, exactly, by the operation of the same name on
/// [`Storage`], which does the work.
///
/// An operation fails with [`map_rwlock_err`]'s error if the lock can no
/// longer be taken because a writer ended abnormally while holding it;
/// [`locked`] says so of every outcome of asking for the lock.
#[derive(Clone)]
pub struct MemoryDB {
    storage: Arc<RwLock<Storage>>,
}

impl MemoryDB {
    /// What the store held when it was made.
    pub closed spec fn born_with(&self) -> Contents {
        made_with(*self.storage)
    }

    /// A new store, empty.
    pub fn new() -> (db: Self)
        ensures
            db.born_with() == Map::<Seq<u8>, Seq<u8>>::empty(),
    {
        MemoryDB { storage: Arc::new(new_lock(Storage::new())) }
    }

    /// Reads the record stored for `(c, key)`, under the shared lock.
    pub fn get(&self, c: DataCategory, key: &[u8]) -> (r: Result<Option<Vec<u8>>, DatabaseError>)
        ensures
            r matches Err(e) ==> is_lock_error(e),
    {
        let storage = locked(self.storage.read())?;
        Ok(storage.get(c, key))
    }

    /// Reads the records stored for each of `keys`, all under one holding of
    /// the shared lock. There are as many answers as keys, in the keys'
    /// order, and all are read from the same contents: a key given twice is
    /// answered twice alike.
    pub fn get_batch(&self, c: DataCategory, keys: &[Vec<u8>]) -> (r: Result<
        Vec<Option<Vec<u8>>>,
        DatabaseError,
    >)
        ensures
            match r {
                Ok(records) => records.len() == keys.len() && exists|m: Contents|
                    records.deep_view() == lookup_all(m, c, keys.deep_view()),
                Err(e) => is_lock_error(e),
            },
    {
        let storage = locked(self.storage.read())?;
        let records = storage.get_batch(c, keys);
        assert(records.len() == keys.len()) by {
            assert(records.deep_view().len() == keys.deep_view().len());
        }
        Ok(records)
    }

    /// Stores `value` for `(c, key)`, under the exclusive lock.
    pub fn insert(&self, c: DataCategory, key: Vec<u8>, value: Vec<u8>) -> (r: Result<
        (),
        DatabaseError,
    >)
        ensures
            r matches Err(e) ==> is_lock_error(e),
    {
        let mut storage = locked(self.storage.write())?;
        storage.insert(c, key, value);
        Ok(())
    }

    /// Stores `values[i]` for `(c, keys[i])`, for each `i` in order, all
    /// under one holding of the exclusive lock. Where the numbers of keys and
    /// of values differ the lock is not asked for, nothing is stored and
    /// `InvalidData` is returned.
    pub fn insert_batch(&self, c: DataCategory, keys: Vec<Vec<u8>>, values: Vec<Vec<u8>>) -> (r:
        Result<(), DatabaseError>)
        ensures
            keys.len() != values.len() <==> r == Err::<(), DatabaseError>(
                DatabaseError::InvalidData,
            ),
            r matches Err(e) ==> e == DatabaseError::InvalidData || is_lock_error(e),
    {
        if let Err(e) = check_batch(keys.as_slice(), values.as_slice()) {
            return Err(e);
        }
        let mut storage = locked(self.storage.write())?;
        storage.insert_batch(c, keys, values)
    }

    /// Whether a record is stored for `(c, key)`, under the shared lock.
    pub fn contains(&self, c: DataCategory, key: &[u8]) -> (r: Result<bool, DatabaseError>)
        ensures
            r matches Err(e) ==> is_lock_error(e),
    {
        let storage = locked(self.storage.read())?;
        Ok(storage.contains(c, key))
    }

    /// Removes the record for `(c, key)`, if there is one, under the
    /// exclusive lock.
    pub fn remove(&self, c: DataCategory, key: &[u8]) -> (r: Result<(), DatabaseError>)
        ensures
            r matches Err(e) ==> is_lock_error(e),
    {
        let mut storage = locked(self.storage.write())?;
        storage.remove(c, key);
        Ok(())
    }

    /// Removes the records for all of `keys`, all under one holding of the
    /// exclusive lock.
    pub fn remove_batch(&self, c: DataCategory, keys: &[Vec<u8>]) -> (r: Result<(), DatabaseError>)
        ensures
            r matches Err(e) ==> is_lock_error(e),
    {
        let mut storage = locked(self.storage.write())?;
        storage.remove_batch(c, keys);
        Ok(())
    }
}

impl Default for MemoryDB {
    /// A new store, empty.
    fn default() -> (db: Self)
        ensures
            db.born_with() == Map::<Seq<u8>, Seq<u8>>::empty(),
    {
        MemoryDB::new()
    }
}

/// What asking for the lock comes to: the guard, where the lock gave one, and
/// else the error that the store reports for a lock that cannot be taken.
pub fn locked<G>(asked: Result<G, PoisonError<G>>) -> (r: Result<G, DatabaseError>)
    ensures
        match asked {
            Ok(guard) => r == Ok::<G, DatabaseError>(guard),
            Err(_) => r matches Err(e) && is_lock_error(e),
        },
{
    match asked {
        Ok(guard) => Ok(guard),
        Err(_) => Err(map_rwlock_err()),
    }
}

} // verus!
