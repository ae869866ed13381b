//! Tools that a model can call.

pub mod argument_laws;
pub mod bash;
pub mod diff_laws;
pub mod edit;
pub mod edit_diff;
pub mod edit_laws;
pub mod edit_order;
pub mod file_mutation_queue;
pub mod image;
pub mod line_diff;
pub mod path_utils;
pub mod read;
pub mod read_laws;
pub mod result;
pub mod run_laws;
pub mod write;
