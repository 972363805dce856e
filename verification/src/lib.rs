//! An embedded vector store: a fixed-dimension vector index supporting
//! insertion, update, deletion and exact k-nearest-neighbour retrieval.
//!
//! Embeddings are held as fixed-point coordinates, so every distance the
//! store reports is a squared Euclidean distance in exact integer
//! arithmetic; the ordering of results is the same as under the real-valued
//! Euclidean metric, and the square root belongs to the presentation layer.

pub mod errors;
pub mod laws;
pub mod slot;
pub mod store;
