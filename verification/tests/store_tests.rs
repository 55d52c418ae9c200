//! The adapter against a real engine: scans, point lookups, snapshot
//! independence, and the inert capabilities.

use lmdb_storage::capability::{AlterTable, Transaction};
use lmdb_storage::codec::encode_row;
use lmdb_storage::error::StorageError;
use lmdb_storage::scan::TextCodec;
use lmdb_storage::store::HeedStorage;
use lmdb_storage::value::{DataRow, Key, Value};

fn row(entries: Vec<(&str, Value)>) -> DataRow {
    DataRow { entries: entries.into_iter().map(|(n, v)| (n.to_owned(), v)).collect() }
}

fn foo_rows() -> (DataRow, DataRow) {
    (
        row(vec![("id", Value::Int(1)), ("name", Value::Str("a".to_owned()))]),
        row(vec![("id", Value::Int(2)), ("name", Value::Str("b".to_owned()))]),
    )
}

fn put_rows(env: &heed::Env, table: &str, rows: &[(&str, &DataRow)]) {
    let db: heed::Database<heed::types::Str, heed::types::Str> =
        env.create_database(Some(table)).unwrap();
    let mut wtxn = env.write_txn().unwrap();
    for (key, r) in rows {
        db.put(&mut wtxn, key, encode_row(r).as_str()).unwrap();
    }
    wtxn.commit().unwrap();
}

fn open_at(dir: &tempfile::TempDir) -> (heed::Env, HeedStorage<TextCodec>) {
    let path = dir.path().to_str().unwrap();
    let storage = HeedStorage::new(path, "main", TextCodec).unwrap();
    let env = heed::EnvOpenOptions::new()
        .map_size(10 * 1024 * 1024)
        .max_dbs(3000)
        .open(dir.path())
        .unwrap();
    (env, storage)
}

#[test]
fn scan_yields_inserted_rows_in_key_order() {
    let dir = tempfile::tempdir().unwrap();
    let (env, storage) = open_at(&dir);
    let (r1, r2) = foo_rows();
    put_rows(&env, "Foo", &[("k2", &r2), ("k1", &r1)]);

    let rows = storage.scan_data("Foo").unwrap();
    assert_eq!(rows.len(), 2);
    assert_eq!(rows[0].0, Key::Str("k1".to_owned()));
    assert_eq!(rows[0].1, r1);
    assert_eq!(rows[1].0, Key::Str("k2".to_owned()));
    assert_eq!(rows[1].1, r2);
}

#[test]
fn lookup_finds_exactly_the_written_row() {
    let dir = tempfile::tempdir().unwrap();
    let (env, storage) = open_at(&dir);
    let (r1, r2) = foo_rows();
    put_rows(&env, "Foo", &[("k1", &r1), ("k2", &r2)]);

    let found = storage.fetch_data("Foo", &Key::Str("k1".to_owned())).unwrap();
    assert_eq!(found, Some(r1));
    let missing = storage.fetch_data("Foo", &Key::Str("nowhere".to_owned())).unwrap();
    assert_eq!(missing, None);
}

#[test]
fn scan_of_empty_table_is_empty_not_an_error() {
    let dir = tempfile::tempdir().unwrap();
    let (env, storage) = open_at(&dir);
    put_rows(&env, "Empty", &[]);

    let rows = storage.scan_data("Empty").unwrap();
    assert!(rows.is_empty());
}

#[test]
fn scan_of_missing_table_reports_it() {
    let dir = tempfile::tempdir().unwrap();
    let (_env, storage) = open_at(&dir);
    assert_eq!(storage.scan_data("Nothing").unwrap_err(), StorageError::TableNotFound);
}

#[test]
fn a_finished_scan_is_unaffected_by_later_writes() {
    let dir = tempfile::tempdir().unwrap();
    let (env, storage) = open_at(&dir);
    let (r1, r2) = foo_rows();
    put_rows(&env, "Foo", &[("k1", &r1)]);

    let first = storage.scan_data("Foo").unwrap();
    put_rows(&env, "Foo", &[("k2", &r2)]);
    let second = storage.scan_data("Foo").unwrap();

    assert_eq!(first.len(), 1);
    assert_eq!(second.len(), 2);
}

#[test]
fn undecodable_stored_bytes_are_a_typed_error() {
    let dir = tempfile::tempdir().unwrap();
    let (env, storage) = open_at(&dir);
    let db: heed::Database<heed::types::Str, heed::types::Str> =
        env.create_database(Some("Bad")).unwrap();
    let mut wtxn = env.write_txn().unwrap();
    db.put(&mut wtxn, "k", "not an encoded row").unwrap();
    wtxn.commit().unwrap();

    match storage.scan_data("Bad") {
        Err(StorageError::Codec(_)) => {}
        other => panic!("expected a codec error, got {:?}", other),
    }
}

#[test]
fn unopenable_region_is_an_initialization_error() {
    let dir = tempfile::tempdir().unwrap();
    let missing = dir.path().join("absent").join("deeper");
    let path = missing.to_str().unwrap();
    match HeedStorage::new(path, "main", TextCodec) {
        Err(e) => assert_eq!(e, StorageError::Initialization),
        Ok(_) => panic!("opening a region under a missing directory succeeded"),
    }
}

#[test]
fn a_table_name_with_a_nul_character_does_not_exist() {
    let dir = tempfile::tempdir().unwrap();
    let (_env, storage) = open_at(&dir);
    assert_eq!(storage.scan_data("a\0b").unwrap_err(), StorageError::TableNotFound);
    let found = storage.fetch_data("a\0b", &Key::Str("k".to_owned()));
    assert_eq!(found.unwrap_err(), StorageError::TableNotFound);
}

#[test]
fn capabilities_are_declared_but_inert() {
    let dir = tempfile::tempdir().unwrap();
    let (_env, mut storage) = open_at(&dir);
    assert_eq!(storage.begin(true), Ok(false));
    assert_eq!(storage.begin(false), Err(StorageError::Unsupported));
    assert_eq!(storage.commit(), Ok(()));
    assert_eq!(storage.rollback(), Ok(()));
    assert_eq!(storage.rename_schema("Foo", "Bar"), Err(StorageError::Unsupported));
}
