//! The domain row model: dynamically typed values, rows as ordered
//! column-name/value mappings, and the opaque row key.

use vstd::prelude::*;

verus! {

/// A dynamically typed value held in one column of a row.
#[derive(Debug, PartialEq)]
pub enum Value {
    Null,
    Bool(bool),
    Int(i64),
    Str(String),
}

/// The mathematical shape of a [`Value`]: strings are abstracted to their
/// character sequences.
pub enum ValV {
    Null,
    Bool(bool),
    Int(i64),
    Str(Seq<char>),
}

/// The mathematical shape of a value.
pub open spec fn val_view(v: Value) -> ValV {
    match v {
        Value::Null => ValV::Null,
        Value::Bool(b) => ValV::Bool(b),
        Value::Int(i) => ValV::Int(i),
        Value::Str(s) => ValV::Str(s@),
    }
}

/// One row exchanged with the query engine: an ordered mapping from column
/// name to value.
#[derive(Debug, PartialEq)]
pub struct DataRow {
    pub entries: Vec<(String, Value)>,
}

/// The mathematical shape of a row: the sequence of its column-name/value
/// pairs.
pub type RowV = Seq<(Seq<char>, ValV)>;

/// The mathematical shape of a [`DataRow`].
pub open spec fn row_view(r: DataRow) -> RowV {
    r.entries@.map_values(|e: (String, Value)| (e.0@, val_view(e.1)))
}

/// An opaque, totally ordered identifier of a row within a table, derived
/// from the stored representation of the row's engine key.
#[derive(Debug, PartialEq)]
pub enum Key {
    Str(String),
}

/// The text a key carries.
pub open spec fn key_view(k: Key) -> Seq<char> {
    match k {
        Key::Str(s) => s@,
    }
}

impl Key {
    /// Two keys are equal exactly when the texts they carry are equal.
    pub fn same_as(&self, other: &Key) -> (r: bool)
        ensures
            r == (key_view(*self) == key_view(*other)),
    {
        match (self, other) {
            (Key::Str(a), Key::Str(b)) => a.eq(b),
        }
    }
}

} // verus!
