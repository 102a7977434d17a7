//! Command-line front end logic: the REPL's state and key handling, what its history and
//! status bar show, and the session subcommands' output.

pub mod app;
pub mod commands;
