//! The error taxonomy of the engine. Every entry point returns an explicit
//! result; no operation is retried internally.

use vstd::prelude::*;

verus! {

/// Failures an engine operation can surface.
///
/// - `IOFailure` wraps an operating-system error message from a filesystem
///   call made by the surrounding program.
/// - `SerializationFailure` marks malformed log or schema text.
/// - `InvalidColumnType` marks an unknown SQL type keyword.
/// - `InvalidTable` marks a schema or metadata validation failure, or a
///   version-0 log that is not a single metadata action.
/// - `TableAlreadyExists` marks a create whose target directory is present.
/// - `RowShapeMismatch` marks an insert whose row width differs from the
///   schema's field count.
/// - `TypeCastFailure` marks a raw value that cannot be cast to its column's
///   declared type.
#[derive(Debug, PartialEq, Eq, Clone)]
pub enum DeltaError {
    IOFailure(String),
    SerializationFailure,
    InvalidColumnType,
    InvalidTable,
    TableAlreadyExists,
    RowShapeMismatch,
    TypeCastFailure,
}

} // verus!
