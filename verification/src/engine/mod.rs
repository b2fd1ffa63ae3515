//! Procedures, databases and sessions.

pub mod database;
pub mod error;
pub mod procedures;
pub mod session;
pub mod session_laws;

pub use database::Database;
pub use session::Session;
