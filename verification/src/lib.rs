//! A minimal table-storage format: a table is a directory of immutable
//! columnar data files plus an append-only transaction log of JSON action
//! records. The log is the sole source of truth for which files constitute
//! the current table. This crate holds the verified core: the action record
//! model and its wire codec, the log-replay algorithm, the version-numbering
//! protocol, schema and metadata validation, and the create/insert/delete
//! command flows that produce log entries. Filesystem work, columnar file
//! encoding and predicate evaluation are left to the surrounding program.
//!
//! - `schema`, `metadata`: the data model and its validity rules.
//! - `actions`: the log's wire unit and its canonical JSON codec.
//! - `json`, `text`: the wire primitives the codec is built from.
//! - `log`: file names, versions, line framing and the ordered scan.
//! - `replay`: the reduction of a scan into the live-file set.
//! - `table`: the engine that plans create, insert and delete commits.

pub mod actions;
pub mod error;
pub mod json;
pub mod log;
pub mod metadata;
pub mod replay;
pub mod schema;
pub mod table;
pub mod text;

use vstd::prelude::*;

verus! {

} // verus!
