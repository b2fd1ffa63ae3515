//! From physical plans to executors.

pub mod builder;
pub mod catalog_modify;
pub mod error;
pub mod evaluator;
pub mod executor_laws;
pub mod graph_creation_laws;
pub mod lines;

pub use builder::ExecutorBuilder;
