//! Graph storage.

pub mod ap;
pub mod error;
pub mod model;
pub mod tp;
