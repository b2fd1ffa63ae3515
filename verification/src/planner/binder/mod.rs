//! Resolving names against the catalog.

pub mod catalog;
pub mod error;
pub mod type_element;
