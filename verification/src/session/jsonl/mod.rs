//! Sessions as files of JSON lines.

pub mod codec;
pub mod errors;
pub mod file_laws;
pub mod load;
pub mod names;
pub mod repo;
pub mod storage;
