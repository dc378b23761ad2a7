//! The pluggable embedding capability: any backend that turns text into
//! fixed-scale integer vectors of a fixed dimension. The engine works
//! without one; when absent, callers skip the vector retrieval paths.

use vstd::prelude::*;

use crate::errors::IcmResult;

verus! {

/// An embedding backend. Implementations live outside the library; the
/// engine assumes nothing of the vectors beyond what it checks itself
/// (length and component range) before using them.
pub trait Embedder {
    /// Embed one text.
    fn embed(&self, text: &str) -> IcmResult<Vec<i64>>;

    /// Embed several texts.
    fn embed_batch(&self, texts: &Vec<String>) -> IcmResult<Vec<Vec<i64>>>;

    /// The fixed dimension the backend produces.
    fn dimensions(&self) -> usize;
}

} // verus!
