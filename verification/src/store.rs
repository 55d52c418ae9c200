//! The storage adapter: a shared memory-mapped environment with one named
//! sub-database per table, scanned under snapshot read transactions. The
//! engine calls go through trusted wrappers; everything decoded from them is
//! verified against the codec.

use vstd::prelude::*;

verus! {

use vstd::string::StrSliceExecFns;
use crate::error::StorageError;
use crate::scan::{Codec, scan_result_of, lookup_result, decode_scan, find_row};
use crate::value::{DataRow, Key, key_view};

/// The key-value engine's environment handle: the owner of the on-disk
/// memory-mapped region, shared by every table opened through it.
#[verifier::external_type_specification]
#[verifier::external_body]
pub struct ExEnv(heed::Env);

/// Maximum size of the memory-mapped region, fixed at open time.
pub const MAP_SIZE: usize = 10 * 1024 * 1024;

/// Maximum number of named sub-databases, fixed at open time.
pub const MAX_DBS: u32 = 3000;

/// Relies on heed's `EnvOpenOptions::{new, map_size, max_dbs, open}`: opens
/// (or initializes) the memory-mapped region under `path`, which must be an
/// existing directory, with fixed capacity parameters; any failure is
/// reported as an initialization error.
#[verifier::external_body]
fn open_env(path: &str, map_size: usize, max_dbs: u32) -> (r: Result<heed::Env, StorageError>)
    ensures
        match r {
            Ok(_) => true,
            Err(e) => e == StorageError::Initialization,
        },
{
    heed::EnvOpenOptions::new().map_size(map_size).max_dbs(max_dbs).open(path).map_err(
        |_e| StorageError::Initialization,
    )
}

/// The text holds the NUL character, which the engine's C interface cannot
/// carry inside a name.
pub open spec fn has_nul(s: Seq<char>) -> bool {
    exists|i: int| 0 <= i < s.len() && #[trigger] (s[i] as int) == 0
}

/// Tests a string slice for the NUL character.
pub fn contains_nul(s: &str) -> (r: bool)
    ensures
        r == has_nul(s@),
{
    let n = s.unicode_len();
    let mut i: usize = 0;
    while i < n
        invariant
            i <= n,
            n == s@.len(),
            forall|k: int| 0 <= k < i ==> #[trigger] (s@[k] as int) != 0,
        decreases n - i,
    {
        let c = s.get_char(i);
        if c as u32 == 0 {
            return true;
        }
        i = i + 1;
    }
    false
}

/// Relies on heed's `Env::open_database`, `Env::read_txn` and
/// `Database::iter` over string-typed entries, in that order: resolves the
/// sub-database of the given name (`Ok(None)` when none exists under it),
/// begins one snapshot read transaction, and walks every entry once, in the
/// engine's ascending key order. The engine stores each key once, so the
/// returned keys are pairwise distinct. Any transaction, cursor or entry
/// decoding failure is reported as an engine error: a stored value that is
/// not text fails in the engine's typed layer, below this crate's row codec.
///
/// The three calls stand in one body so that the database handle and the
/// transaction are both scoped to the one environment given: the engine
/// rejects a database paired with another environment's transaction without
/// returning, and nothing over these opaque handles can state that pairing.
/// The name must hold no NUL character: the engine takes it as a C string
/// and cannot accept one.
#[verifier::external_body]
fn read_table_entries(env: &heed::Env, name: &str) -> (r: Result<
    Option<Vec<(String, String)>>,
    StorageError,
>)
    requires
        !has_nul(name@),
    ensures
        match r {
            Ok(Some(v)) => forall|i: int, j: int| 0 <= i < j < v@.len() ==> v@[i].0@ != v@[j].0@,
            Ok(None) => true,
            Err(e) => e == StorageError::Engine,
        },
{
    let err = |_e: heed::Error| StorageError::Engine;
    let db: Option<heed::Database<heed::types::Str, heed::types::Str>> = env.open_database(
        Some(name),
    ).map_err(err)?;
    match db {
        None => Ok(None),
        Some(db) => {
            let txn = env.read_txn().map_err(err)?;
            let collected = db.iter(&txn).map_err(err)?.map(
                |item| item.map(|(k, v)| (k.to_owned(), v.to_owned())).map_err(err),
            ).collect::<Result<Vec<(String, String)>, StorageError>>();
            collected.map(Some)
        }
    }
}

/// The storage adapter over one environment: each table's rows live in the
/// sub-database named after it, rendered through the injected codec.
pub struct HeedStorage<C: Codec> {
    pub env: heed::Env,
    pub path: String,
    pub database_name: String,
    pub codec: C,
}

impl<C: Codec> HeedStorage<C> {
    /// Opens the environment under `path` — an existing directory — with the
    /// fixed capacity parameters. A handle is returned only when the region
    /// opened; a caller must not proceed without one.
    pub fn new(path: &str, database_name: &str, codec: C) -> (r: Result<Self, StorageError>)
        ensures
            match r {
                Ok(s) => s.path@ == path@ && s.database_name@ == database_name@,
                Err(e) => e == StorageError::Initialization,
            },
    {
        let env = open_env(path, MAP_SIZE, MAX_DBS)?;
        Ok(
            HeedStorage {
                env,
                path: path.to_owned(),
                database_name: database_name.to_owned(),
                codec,
            },
        )
    }

    /// Scans every row of the named table under one snapshot read
    /// transaction: the decoded pairs of some raw entry sequence with
    /// pairwise distinct keys, in engine order. A missing sub-database is a
    /// typed "table does not exist" error — so is a name holding a NUL
    /// character, which the engine cannot carry; a table with no entries is
    /// an empty scan, not an error.
    pub fn scan_data(&self, table_name: &str) -> (r: Result<Vec<(Key, DataRow)>, StorageError>)
        ensures
            match r {
                Ok(rows) => exists|raw: Seq<(Seq<char>, Seq<char>)>|
                    #[trigger] scan_result_of(self.codec, raw, rows@),
                Err(e) => e == StorageError::TableNotFound || e == StorageError::Engine || (
                e matches StorageError::Codec(_)),
            },
            has_nul(table_name@) ==> r == Err::<Vec<(Key, DataRow)>, StorageError>(
                StorageError::TableNotFound,
            ),
    {
        if contains_nul(table_name) {
            // No sub-database can exist under a name the engine cannot carry.
            return Err(StorageError::TableNotFound);
        }
        let entries = match read_table_entries(&self.env, table_name) {
            Ok(Some(entries)) => entries,
            Ok(None) => {
                return Err(StorageError::TableNotFound);
            }
            Err(e) => {
                return Err(e);
            }
        };
        match decode_scan(&self.codec, &entries) {
            Ok(rows) => {
                proof {
                    let raw = entries@.map_values(|p: (String, String)| (p.0@, p.1@));
                    assert(scan_result_of(self.codec, raw, rows@)) by {
                        assert(forall|k: int|
                            0 <= k < raw.len() ==> raw[k] == (entries@[k].0@, entries@[k].1@));
                    }
                }
                Ok(rows)
            }
            Err(e) => Err(e),
        }
    }

    /// Point lookup: scans the whole table and returns the row of the first
    /// — with distinct keys, the only — pair whose key equals `target`, or
    /// nothing when no key matches. Linear in the table's size.
    pub fn fetch_data(&self, table_name: &str, target: &Key) -> (r: Result<
        Option<DataRow>,
        StorageError,
    >)
        ensures
            match r {
                Ok(opt) => exists|raw: Seq<(Seq<char>, Seq<char>)>, rows: Seq<(Key, DataRow)>|
                    #[trigger] scan_result_of(self.codec, raw, rows) && lookup_result(
                        rows,
                        key_view(*target),
                        opt,
                    ),
                Err(e) => e == StorageError::TableNotFound || e == StorageError::Engine || (
                e matches StorageError::Codec(_)),
            },
            has_nul(table_name@) ==> r == Err::<Option<DataRow>, StorageError>(
                StorageError::TableNotFound,
            ),
    {
        let rows = match self.scan_data(table_name) {
            Ok(rows) => rows,
            Err(e) => {
                return Err(e);
            }
        };
        let opt = find_row(rows, target);
        Ok(opt)
    }
}

} // verus!
