//! The verified core of a coding assistant.

pub mod auth;
pub mod config;
pub mod doctor;
pub mod goal_rpc;
pub mod ident;
pub mod json;
pub mod knowledge;
pub mod llm;
pub mod providers;
pub mod session;
pub mod table;
pub mod text;
