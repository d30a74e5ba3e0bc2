//! A chunked double-ended sequence container.
//!
//! Elements are stored in fixed-capacity contiguous blocks ("chunks"); the
//! container keeps an ordered list of chunks and a running element count.
//! This combines array-like locality inside each chunk with O(1) amortized
//! insertion and removal at both ends of the whole sequence.

pub mod chunk;
pub mod flattening;
pub mod iter;
pub mod laws;
pub mod list;

pub use chunk::Chunk;
pub use iter::IntoIter;
pub use iter::Iter;
pub use list::ChunkList;
