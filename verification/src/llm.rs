//! Calls to model providers: wire formats, streams, limits and health.

pub mod anthropic;
pub mod anthropic_sse;
pub mod catalog;
pub mod circuit;
pub mod client;
pub mod gemini;
pub mod kiro;
pub mod managed;
pub mod models;
pub mod mrm;
pub mod mrm_health;
pub mod openai;
pub mod retry;
pub mod sse;
pub mod stream_limit;
pub mod types;
pub mod verify;
pub mod wire;
pub mod xai;
