//! Agent session engine: message model, session tree, lane recovery,
//! compaction, editing tools and the decisions of the agent loop.

pub mod agent;
pub mod agent_events;
pub mod agent_harness;
pub mod agent_laws;
pub mod agent_loop;
pub mod command_run;
pub mod compaction;
pub mod env_laws;
pub mod event_laws;
pub mod events;
pub mod execution_env;
pub mod front_matter;
pub mod harness_types;
pub mod json;
pub mod lane_laws;
pub mod lane_state;
pub mod log_laws;
pub mod loop_laws;
pub mod message_laws;
pub mod messages;
pub mod order;
pub mod prompt_templates;
pub mod proxy;
pub mod proxy_laws;
pub mod reducer;
pub mod session;
pub mod skill_laws;
pub mod skills;
pub mod telemetry;
pub mod template_laws;
pub mod text;
pub mod text_laws;
pub mod text_set;
pub mod tool_calls;
pub mod tool_laws;
pub mod tools;
pub mod types;
pub mod utils;
