//! A file-backed key/value storage engine: logical keys are mapped onto files
//! under a root directory, and a metadata index keeps, per key, the encoding
//! and the logical timestamp of the last write.
//!
//! The library holds the decisions of the engine as verified functions over
//! plain values; the filesystem and the embedded index are driven by the caller.
use vstd::prelude::*;

pub mod text;
pub mod keys;
pub mod timestamp;
pub mod record;
pub mod external;
pub mod files;
pub mod index;
pub mod storage;
pub mod model;

verus! {

/// The storage backend that hands out file-system volumes.
pub struct FileSystemBackend {}

} // verus!
