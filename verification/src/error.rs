//! Typed errors of the storage adapter. Every engine-level failure is
//! reported as a value of these types; no operation of this crate panics.

use vstd::prelude::*;

verus! {

/// Why a stored byte string could not be decoded into a row.
#[derive(Debug, Clone, Copy, PartialEq, Eq, Structural)]
pub enum CodecError {
    /// The text ends before the announced end of a field.
    Truncated,
    /// A character where a hex digit was expected is not one.
    BadDigit,
    /// A value marker other than the five known ones.
    BadMarker,
}

/// The error taxonomy of the adapter.
#[derive(Debug, Clone, Copy, PartialEq, Eq, Structural)]
pub enum StorageError {
    /// The backing directory or the memory-mapped region could not be opened.
    Initialization,
    /// A definition document names a table other than the requested one.
    SchemaMismatch,
    /// No sub-database exists under the requested table name.
    TableNotFound,
    /// A definition file could not be read or listed.
    FileAccess,
    /// A definition document failed to parse.
    DefinitionParse,
    /// Stored bytes failed to decode into a row.
    Codec(CodecError),
    /// A transaction or cursor failure inside the key-value engine.
    Engine,
    /// A declared capability that carries no behavior yet.
    Unsupported,
}

} // verus!
