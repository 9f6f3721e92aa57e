//! Fleet access through a bastion host: one-time passwords, a prompt-driven
//! reader for interactive shells, session lifecycles and fan-out decisions.
pub mod address;
pub mod bridge;
pub mod cli;
pub mod config;
pub mod mfa;
pub mod orchestrator;
pub mod prompt;
pub mod text;
pub mod utf8_stream;
