pub mod chat;
pub mod models;
pub mod sse;
