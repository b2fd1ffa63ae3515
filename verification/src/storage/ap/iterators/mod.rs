//! Walks over the stored vertices and edges.

pub mod adjacency_iterator;
pub mod edge_iterator;
pub mod vertex_iterator;

pub use adjacency_iterator::{AdjacencyIterator, AdjacencyIteratorAtTs};
pub use edge_iterator::{EdgeIter, EdgeIterAtTs};
pub use vertex_iterator::VertexIter;
