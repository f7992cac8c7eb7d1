//! Storage-independent parts of the database layer: import modes, backend
//! selection, export rendering and import merging.
use vstd::prelude::*;
use crate::text::{all_ascii, ascii_lowercase, lowercase, str_eq, to_lowercase};

verus! {

/// How imported records combine with stored ones.
#[derive(Debug, Clone, Copy, PartialEq, Eq, Structural)]
pub enum ImportMode {
    /// Imported days replace the stored days.
    Overwrite,
    /// Imported counts are added to the stored counts.
    Merge,
}

/// Which storage backend a configuration selects.
#[derive(Debug, Clone, Copy, PartialEq, Eq, Structural)]
pub enum BackendType {
    Sqlite,
    MongoDb,
}

/// The import mode that a lowercased mode name selects.
pub open spec fn import_mode_of(lower: Seq<char>) -> ImportMode {
    if lower == "merge"@ || lower == "\u{53e0}\u{52a0}"@ {
        ImportMode::Merge
    } else {
        ImportMode::Overwrite
    }
}

/// The backend that a lowercased backend name selects.
pub open spec fn backend_type_of(lower: Seq<char>) -> BackendType {
    if lower == "mongodb"@ || lower == "mongo"@ {
        BackendType::MongoDb
    } else {
        BackendType::Sqlite
    }
}

impl ImportMode {
    /// Parses a mode name, ignoring case: `merge` (or its Chinese name) is
    /// `Merge`, anything else `Overwrite`.
    pub fn from_str(s: &str) -> (mode: ImportMode)
        ensures
            mode == import_mode_of(lowercase(s@)),
            all_ascii(s@) ==> mode == import_mode_of(ascii_lowercase(s@)),
    {
        let lower = to_lowercase(s);
        Self::from_lowercase(lower.as_str())
    }

    /// The mode that an already lowercased name selects.
    pub fn from_lowercase(lower: &str) -> (mode: ImportMode)
        ensures
            mode == import_mode_of(lower@),
    {
        if str_eq(lower, "merge") || str_eq(lower, "\u{53e0}\u{52a0}") {
            ImportMode::Merge
        } else {
            ImportMode::Overwrite
        }
    }
}

impl BackendType {
    /// Parses a backend name, ignoring case: `mongodb` or `mongo` is
    /// `MongoDb`, anything else `Sqlite`.
    pub fn from_str(s: &str) -> (backend: BackendType)
        ensures
            backend == backend_type_of(lowercase(s@)),
            all_ascii(s@) ==> backend == backend_type_of(ascii_lowercase(s@)),
    {
        let lower = to_lowercase(s);
        Self::from_lowercase(lower.as_str())
    }

    /// The backend that an already lowercased name selects.
    pub fn from_lowercase(lower: &str) -> (backend: BackendType)
        ensures
            backend == backend_type_of(lower@),
    {
        if str_eq(lower, "mongodb") || str_eq(lower, "mongo") {
            BackendType::MongoDb
        } else {
            BackendType::Sqlite
        }
    }
}

} // verus!
