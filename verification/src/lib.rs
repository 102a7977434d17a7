//! Synapse: the verified core of an LLM agent with a CLI and a Telegram front end.

pub mod agent;
pub mod cli;
pub mod chars;
pub mod config;
pub mod mcp;
pub mod message;
pub mod provider;
pub mod session;
pub mod storage;
pub mod text;
pub mod telegram;
