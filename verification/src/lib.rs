//! The core of a terminal coding agent: conversations with a model that calls
//! tools, the sessions that they are kept in, and the services that are asked.

pub mod agent;
pub mod agent_loop;
pub mod anthropic;
pub mod anthropic_laws;
pub mod anthropic_stream_laws;
pub mod cli;
pub mod cloudflare;
pub mod compaction;
pub mod compaction_laws;
pub mod config;
pub mod config_laws;
pub mod display;
pub mod display_laws;
pub mod error;
pub mod event_stream;
pub mod http;
pub mod json;
pub mod json_laws;
pub mod json_stream;
pub mod listing;
pub mod loop_laws;
pub mod message_normalization;
pub mod normalization_laws;
pub mod openai;
pub mod openai_laws;
pub mod overflow;
pub mod overflow_laws;
pub mod partial_laws;
pub mod path_laws;
pub mod place_laws;
pub mod provider;
pub mod reconnect;
pub mod renaming_laws;
pub mod runner_laws;
pub mod service_laws;
pub mod session;
pub mod session_laws;
pub mod session_store;
pub mod sse_laws;
pub mod store_laws;
pub mod stream_laws;
pub mod streaming;
pub mod system_prompt;
pub mod test_utils;
pub mod text;
pub mod text_laws;
pub mod token_estimation;
pub mod token_laws;
pub mod tool_validation;
pub mod traits;
pub mod turn_laws;
pub mod types;
pub mod validation_laws;
