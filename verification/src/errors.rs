//! Error taxonomy of the ingestion pipeline, and the mapping from the
//! native distributed-filesystem client's errors onto it.

use vstd::prelude::*;

verus! {

/// Every failure the pipeline reports falls into one of these classes.
///
/// `NotFound`, `AlreadyExists`, `PermissionDenied` and `Generic` come from
/// object-store backends; `Decode` marks a malformed file; `Conflict` an
/// optimistic-commit collision; `Configuration` bad startup parameters;
/// `Exhausted` a spent retry budget.
#[derive(Debug, Clone)]
pub enum StoreError {
    NotFound { path: String },
    AlreadyExists { path: String },
    PermissionDenied { path: String },
    Generic { cause: String },
    Decode { cause: String },
    Conflict { cause: String },
    Configuration { cause: String },
    Exhausted { attempts: u64 },
}

/// The errors the blocking native filesystem client can report, each
/// carrying the native cause as text.
#[derive(Debug, Clone)]
pub enum NativeError {
    Generic(String),
    FileNotFound(String),
    FileAlreadyExists(String),
    CannotConnectToNameNode(String),
    InvalidUrl(String),
}

/// Maps a native client error to the pipeline's taxonomy: a missing path
/// becomes `NotFound`, a create-exclusive conflict `AlreadyExists`, and
/// connectivity, URL and unclassified failures `Generic`. The native cause
/// is retained in every case.
pub fn map_native_error(err: NativeError) -> (r: StoreError)
    ensures
        r == (match err {
            NativeError::Generic(c) => StoreError::Generic { cause: c },
            NativeError::FileNotFound(c) => StoreError::NotFound { path: c },
            NativeError::FileAlreadyExists(c) => StoreError::AlreadyExists { path: c },
            NativeError::CannotConnectToNameNode(c) => StoreError::Generic { cause: c },
            NativeError::InvalidUrl(c) => StoreError::Generic { cause: c },
        }),
{
    match err {
        NativeError::Generic(c) => StoreError::Generic { cause: c },
        NativeError::FileNotFound(c) => StoreError::NotFound { path: c },
        NativeError::FileAlreadyExists(c) => StoreError::AlreadyExists { path: c },
        NativeError::CannotConnectToNameNode(c) => StoreError::Generic { cause: c },
        NativeError::InvalidUrl(c) => StoreError::Generic { cause: c },
    }
}

} // verus!
