//! A guarded gateway in front of a chat-completion service.
//!
//! The crate holds the two shared components that protect the upstream call,
//! a per-client sliding-window rate limiter and a bounded response cache,
//! and the request protocol that sequences them around that call. Every
//! function states its behaviour over a mathematical model of the state it
//! touches, and the statements are machine-checked.

pub mod cache;
pub mod config;
pub mod handlers;
pub mod json;
pub mod rate_limit;
pub mod text;
pub mod upstream;
