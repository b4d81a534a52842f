pub mod adapter;
pub mod diff;
pub mod digest;
pub mod dump_config;
pub mod json;
pub mod laws;
pub mod project;
pub mod schema;
pub mod seqs;
pub mod snapshot;
pub mod snapshot_result;
pub mod text;
pub mod value;
