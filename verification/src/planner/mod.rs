//! From statements to physical plans.

pub mod ast;
pub mod binder;
pub mod binding_laws;
pub mod bound;
pub mod error;
pub mod logical_planner;
pub mod optimizer;
pub mod plan;
pub mod plan_laws;
