//! Schema resolution from definition documents, the name-mismatch check,
//! and the sorted listing of all schemas.

use lmdb_storage::error::StorageError;
use lmdb_storage::schema::{fetch_all_schemas_from, fetch_schema_from_ddl, str_eq, str_lex_lt};

const FOO_DDL: &str = "CREATE TABLE Foo (id INTEGER, name TEXT);";

#[test]
fn schema_of_missing_document_is_untyped() {
    let s = fetch_schema_from_ddl("Foo", None).unwrap();
    assert_eq!(s.table_name, "Foo");
    assert!(s.column_defs.is_none());
    assert!(s.indexes.is_empty());
    assert!(s.engine.is_none());
}

#[test]
fn schema_of_document_carries_columns() {
    let ddl = FOO_DDL.to_owned();
    let s = fetch_schema_from_ddl("Foo", Some(&ddl)).unwrap();
    assert_eq!(s.table_name, "Foo");
    let cols = s.column_defs.unwrap();
    assert_eq!(cols.len(), 2);
    assert_eq!(cols[0].name, "id");
    assert_eq!(cols[0].data_type, "INT");
    assert_eq!(cols[1].name, "name");
    assert_eq!(cols[1].data_type, "TEXT");
}

#[test]
fn mismatched_document_name_is_an_error() {
    let ddl = FOO_DDL.to_owned();
    assert_eq!(fetch_schema_from_ddl("Bar", Some(&ddl)), Err(StorageError::SchemaMismatch));
}

#[test]
fn unparsable_document_is_an_error() {
    let ddl = "this is not a table definition".to_owned();
    assert_eq!(fetch_schema_from_ddl("Foo", Some(&ddl)), Err(StorageError::DefinitionParse));
}

#[test]
fn all_schemas_come_sorted_by_name() {
    let sources = vec![
        ("Zoo".to_owned(), "CREATE TABLE Zoo (id INTEGER);".to_owned()),
        ("Arc".to_owned(), "CREATE TABLE Arc (id INTEGER);".to_owned()),
        ("Mid".to_owned(), "CREATE TABLE Mid (id INTEGER);".to_owned()),
    ];
    let schemas = fetch_all_schemas_from(&sources).unwrap();
    let names: Vec<&str> = schemas.iter().map(|s| s.table_name.as_str()).collect();
    assert_eq!(names, vec!["Arc", "Mid", "Zoo"]);
}

#[test]
fn listing_with_a_mismatched_file_fails() {
    let sources = vec![
        ("Arc".to_owned(), "CREATE TABLE Arc (id INTEGER);".to_owned()),
        ("Odd".to_owned(), "CREATE TABLE Even (id INTEGER);".to_owned()),
    ];
    assert_eq!(fetch_all_schemas_from(&sources), Err(StorageError::SchemaMismatch));
}

#[test]
fn listing_reports_the_first_faulty_file() {
    // The unparsable document comes first in the listing, so its error
    // wins over the later name mismatch.
    let sources = vec![
        ("Bad".to_owned(), "not a definition".to_owned()),
        ("Odd".to_owned(), "CREATE TABLE Even (id INTEGER);".to_owned()),
    ];
    assert_eq!(fetch_all_schemas_from(&sources), Err(StorageError::DefinitionParse));
}

#[test]
fn string_order_helpers() {
    assert!(str_eq("abc", "abc"));
    assert!(!str_eq("abc", "abd"));
    assert!(str_lex_lt("abc", "abd"));
    assert!(str_lex_lt("ab", "abc"));
    assert!(!str_lex_lt("abc", "abc"));
    assert!(!str_lex_lt("b", "abc"));
}
