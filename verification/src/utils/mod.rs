//! Helpers for the output of tools.

pub mod capture_run;
pub mod shell_output;
pub mod truncate;
