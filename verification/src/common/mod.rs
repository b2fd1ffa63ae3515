//! Types shared by every layer.

pub mod data_type;
pub mod name_map;
pub mod number_laws;
pub mod parse;
pub mod text;
pub mod types;
pub mod value;
