//! Round-trip and rejection behavior of the row codec.

use lmdb_storage::codec::{decode_row, encode_row};
use lmdb_storage::error::CodecError;
use lmdb_storage::hex::{decode_hex16, encode_hex16};
use lmdb_storage::value::{DataRow, Value};

fn row(entries: Vec<(&str, Value)>) -> DataRow {
    DataRow { entries: entries.into_iter().map(|(n, v)| (n.to_owned(), v)).collect() }
}

#[test]
fn hex_renders_sixteen_digits() {
    let mut s = String::new();
    encode_hex16(255, &mut s);
    assert_eq!(s, "00000000000000ff");
    let mut s = String::new();
    encode_hex16(u64::MAX, &mut s);
    assert_eq!(s, "ffffffffffffffff");
}

#[test]
fn hex_reads_back() {
    assert_eq!(decode_hex16("00000000000000ff", 0), Some(255));
    assert_eq!(decode_hex16("xx0000000000000010", 2), Some(16));
    assert_eq!(decode_hex16("00000000000000fg", 0), None);
}

#[test]
fn encoding_of_a_small_row_is_exact() {
    let r = row(vec![("id", Value::Int(1))]);
    assert_eq!(encode_row(&r), "0000000000000002idI0000000000000001");
}

#[test]
fn round_trip_simple_row() {
    let r = row(vec![("id", Value::Int(1)), ("name", Value::Str("a".to_owned()))]);
    let decoded = decode_row(&encode_row(&r)).unwrap();
    assert_eq!(decoded, r);
}

#[test]
fn round_trip_every_value_kind() {
    let r = row(vec![
        ("n", Value::Null),
        ("t", Value::Bool(true)),
        ("f", Value::Bool(false)),
        ("zero", Value::Int(0)),
        ("neg", Value::Int(-1)),
        ("min", Value::Int(i64::MIN)),
        ("max", Value::Int(i64::MAX)),
        ("empty", Value::Str(String::new())),
        ("text", Value::Str("héllo, wörld".to_owned())),
    ]);
    let decoded = decode_row(&encode_row(&r)).unwrap();
    assert_eq!(decoded, r);
}

#[test]
fn round_trip_empty_row() {
    let r = row(vec![]);
    let encoded = encode_row(&r);
    assert_eq!(encoded, "");
    assert_eq!(decode_row(&encoded).unwrap(), r);
}

#[test]
fn decoder_rejects_unknown_marker() {
    // A one-character name "x" followed by marker 'Z'.
    let text = "0000000000000001xZ";
    assert_eq!(decode_row(text), Err(CodecError::BadMarker));
}

#[test]
fn decoder_rejects_truncated_text() {
    assert_eq!(decode_row("00000000000000"), Err(CodecError::Truncated));
    // Announces a three-character name but only two follow.
    assert_eq!(decode_row("0000000000000003ab"), Err(CodecError::Truncated));
}

#[test]
fn decoder_rejects_bad_digits() {
    assert_eq!(decode_row("000000000000000zxN"), Err(CodecError::BadDigit));
}
