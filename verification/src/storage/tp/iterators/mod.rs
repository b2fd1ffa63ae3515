//! Iterators over neighbours and edges.

pub mod adjacency_iterator;
pub mod edge_iterator;
