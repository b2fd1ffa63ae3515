//! Reading the graph in a transaction.

pub mod iterators;
pub mod listing_laws;
pub mod neighbors;
pub mod transaction;
