//! Identifiers of the parts of a multipart upload.

use vstd::prelude::*;

verus! {

/// Identifies one uploaded part: the token with which the provider
/// acknowledged it.
#[derive(Debug, Clone)]
pub struct PartId {
    /// The provider's token for the part's content
    pub content_id: String,
}

} // verus!
