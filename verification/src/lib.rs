//! Verified core of a token-throughput and latency benchmark for
//! OpenAI-compatible chat-completion endpoints.

pub mod text;
pub mod api;
pub mod prompt;
pub mod session;
pub mod metrics;
pub mod args;
pub mod config;
pub mod run;
pub mod file;
pub mod db;
