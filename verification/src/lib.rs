//! Incremental retrieval of appended log content, keyed by rotating
//! continuation tokens.

pub mod key;
pub mod laws;
pub mod logreader;
pub mod path;
pub mod poll;
pub mod table;
pub mod text;
pub mod wire;
