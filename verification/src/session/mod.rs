//! Sessions: append-only trees of entries with lanes, records and facts.

pub mod context;
pub mod context_laws;
pub mod fork;
pub mod fork_laws;
pub mod jsonl;
pub mod memory;
pub mod plan;
pub mod select;
pub mod state;
pub mod state_laws;
pub mod types;
