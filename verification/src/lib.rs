//! A growable sequence that keeps its elements in fixed-size chunks.

use vstd::prelude::*;

pub mod chunk;
pub mod chunked_vec;
pub mod equality;
pub mod index;
pub mod iterators;
pub mod laws;
pub mod layout;
pub mod operations;
pub mod trusted;
pub mod traits;

pub use crate::chunk::Chunk;
pub use crate::chunked_vec::ChunkedVec;
pub use crate::chunked_vec::ChunkedVecSized;
pub use crate::iterators::into_iter::IntoIter;
pub use crate::iterators::iter::Iter;
pub use crate::iterators::iter_mut::IterMut;

verus! {

/// The chunk size that `ChunkedVec::new` uses.
pub const DEFAULT_CHUNK_SIZE: usize = 64;

} // verus!
