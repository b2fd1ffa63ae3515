//! From bound statements to logical plans.

pub mod catalog;

pub use catalog::LogicalPlanner;
