//! The procedures that every database has.

pub mod create_test_graph;
pub mod create_test_graph_data;
pub mod export_graph;
pub mod field;
pub mod import_graph;
pub mod import_laws;
pub mod manifest;
pub mod predefined;
pub mod round_trip_laws;
pub mod sample_laws;

pub use predefined::build_predefined_procedures;
