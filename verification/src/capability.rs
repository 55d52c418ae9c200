//! Declared-but-inert capabilities of the adapter: schema alteration,
//! secondary indexing, user functions and multi-operation transactions are
//! part of the storage contract and are advertised, but carry only the
//! default behavior here — each call reports the capability as unsupported,
//! except the auto-commit handshake, which is the default already.

use vstd::prelude::*;

verus! {

use crate::error::StorageError;
use crate::scan::Codec;
use crate::store::HeedStorage;
use crate::value::{DataRow, Key};

/// Schema alteration, declared but inert.
pub trait AlterTable {
    /// Renames a table.
    fn rename_schema(&mut self, _table_name: &str, _new_name: &str) -> (r: Result<
        (),
        StorageError,
    >)
        ensures
            r == Err::<(), StorageError>(StorageError::Unsupported),
    {
        Err(StorageError::Unsupported)
    }

    /// Renames a column of a table.
    fn rename_column(&mut self, _table_name: &str, _old: &str, _new: &str) -> (r: Result<
        (),
        StorageError,
    >)
        ensures
            r == Err::<(), StorageError>(StorageError::Unsupported),
    {
        Err(StorageError::Unsupported)
    }
}

/// Secondary-index reads, declared but inert.
pub trait Index {
    /// Scans a table through a named index.
    fn scan_indexed_data(&self, _table_name: &str, _index_name: &str) -> (r: Result<
        Vec<(Key, DataRow)>,
        StorageError,
    >)
        ensures
            r == Err::<Vec<(Key, DataRow)>, StorageError>(StorageError::Unsupported),
    {
        Err(StorageError::Unsupported)
    }
}

/// Secondary-index maintenance, declared but inert.
pub trait IndexMut {
    /// Creates a named index over a table.
    fn create_index(&mut self, _table_name: &str, _index_name: &str) -> (r: Result<
        (),
        StorageError,
    >)
        ensures
            r == Err::<(), StorageError>(StorageError::Unsupported),
    {
        Err(StorageError::Unsupported)
    }

    /// Drops a named index of a table.
    fn drop_index(&mut self, _table_name: &str, _index_name: &str) -> (r: Result<
        (),
        StorageError,
    >)
        ensures
            r == Err::<(), StorageError>(StorageError::Unsupported),
    {
        Err(StorageError::Unsupported)
    }
}

/// User-defined function reads, declared but inert.
pub trait CustomFunction {
    /// Fetches a user function's definition text by name.
    fn fetch_function(&self, _func_name: &str) -> (r: Result<Option<String>, StorageError>)
        ensures
            r == Err::<Option<String>, StorageError>(StorageError::Unsupported),
    {
        Err(StorageError::Unsupported)
    }
}

/// User-defined function maintenance, declared but inert.
pub trait CustomFunctionMut {
    /// Persists a user function's definition text.
    fn insert_function(&mut self, _func_name: &str, _body: &str) -> (r: Result<(), StorageError>)
        ensures
            r == Err::<(), StorageError>(StorageError::Unsupported),
    {
        Err(StorageError::Unsupported)
    }

    /// Removes a user function by name.
    fn delete_function(&mut self, _func_name: &str) -> (r: Result<(), StorageError>)
        ensures
            r == Err::<(), StorageError>(StorageError::Unsupported),
    {
        Err(StorageError::Unsupported)
    }
}

/// Multi-operation transactions, declared but inert: only the auto-commit
/// handshake succeeds, reporting that no explicit transaction was begun.
pub trait Transaction {
    /// Begins a transaction; under auto-commit this is the default no-op.
    fn begin(&mut self, autocommit: bool) -> (r: Result<bool, StorageError>)
        ensures
            autocommit ==> r == Ok::<bool, StorageError>(false),
            !autocommit ==> r == Err::<bool, StorageError>(StorageError::Unsupported),
    {
        if autocommit {
            Ok(false)
        } else {
            Err(StorageError::Unsupported)
        }
    }

    /// Rolls back the open transaction; there is never one, so this is the
    /// contract's default silent no-op.
    fn rollback(&mut self) -> (r: Result<(), StorageError>)
        ensures
            r == Ok::<(), StorageError>(()),
    {
        Ok(())
    }

    /// Commits the open transaction; there is never one, so this is a no-op.
    fn commit(&mut self) -> (r: Result<(), StorageError>)
        ensures
            r == Ok::<(), StorageError>(()),
    {
        Ok(())
    }
}

impl<C: Codec> AlterTable for HeedStorage<C> {

}

impl<C: Codec> Index for HeedStorage<C> {

}

impl<C: Codec> IndexMut for HeedStorage<C> {

}

impl<C: Codec> CustomFunction for HeedStorage<C> {

}

impl<C: Codec> CustomFunctionMut for HeedStorage<C> {

}

impl<C: Codec> Transaction for HeedStorage<C> {

}

} // verus!
