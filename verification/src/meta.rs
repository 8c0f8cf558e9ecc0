//! What a listing tells of the objects in a store.

use crate::path::Path;
use vstd::prelude::*;

verus! {

/// An instant on the UTC time line: whole seconds since the start of
/// 1970 and the nanoseconds into the following second.
#[derive(Debug, Clone, Copy, PartialEq, Eq, Structural)]
pub struct Timestamp {
    pub seconds: i64,
    pub nanoseconds: u32,
}

/// The metadata that describes an object.
#[derive(Debug)]
pub struct ObjectMeta {
    /// The full path to the object
    pub location: Path,
    /// The last modified time
    pub last_modified: Timestamp,
    /// The size in bytes of the object
    pub size: usize,
    /// The unique identifier for the object
    pub e_tag: Option<String>,
    /// A version indicator for this object
    pub version: Option<String>,
}

/// Result of a list call that includes objects and prefixes (directories)
#[derive(Debug)]
pub struct ListResult {
    /// Prefixes that are common (like directories)
    pub common_prefixes: Vec<Path>,
    /// Object metadata for the listing
    pub objects: Vec<ObjectMeta>,
}

} // verus!
