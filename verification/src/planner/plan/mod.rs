//! Plans: trees of operators.

pub mod catalog_modify;
pub mod node;

pub use node::{PlanBase, PlanNode};
