//! Telegram front-end logic: formatting, chunking, sessions per chat and commands.


pub mod format;
pub mod chunk;
pub mod handlers;
pub mod commands;
pub mod startup;
