//! A graph database core: transactional storage, catalog, planning and procedures.

pub mod catalog;
pub mod common;
pub mod engine;
pub mod execution;
pub mod output;
pub mod output_laws;
pub mod planner;
pub mod storage;
pub mod transaction;
