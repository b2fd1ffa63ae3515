//! Storage for analytical workloads: edges in blocks, properties in columns.

pub mod abort_laws;
pub mod access_laws;
pub mod blocks;
pub mod bounds_laws;
pub mod chain_laws;
pub mod collections;
pub mod compress;
pub mod deletions;
pub mod index_laws;
pub mod isolation_laws;
pub mod iterators;
pub mod model;
pub mod olap_graph;
pub mod read_back_laws;
pub mod reads;
pub mod transaction;
pub mod types;
pub mod version_laws;
pub mod visibility_laws;
pub mod write_laws;
pub mod writes;
