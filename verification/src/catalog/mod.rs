//! Schemas, graphs, graph types and procedures.

pub mod graph_type;
pub mod label_set;
pub mod lookup_laws;
pub mod schema;

pub use schema::{CreateGraphResult, CreateKind, DropGraphResult};
