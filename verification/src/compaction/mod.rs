//! Compaction: shortening a conversation by summaries.

pub mod branch_laws;
pub mod branch_summarization;
pub mod compaction;
pub mod cut;
pub mod cut_laws;
pub mod estimate;
pub mod quote_laws;
pub mod utils;
