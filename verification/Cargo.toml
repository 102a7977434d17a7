[package]
name = "synapse"
version = "0.1.0"
edition = "2021"
publish = false

[dependencies]
anyhow = "=1.0.104"
async-stream = "0.3"
async-trait = "0.1"
chrono = { version = "=0.4.45", default-features = false, features = ["clock", "std"] }
clap = { version = "=4.6.7", features = ["derive"] }
crossterm = { version = "0.28", features = ["event-stream"] }
dirs = "6"
dptree = "0.5"
eventsource-stream = "0.2"
futures = "0.3"
pulldown-cmark = { version = "=0.13.6", default-features = false }
ratatui = { version = "0.29", default-features = false, features = ["crossterm"] }
rmcp = { version = "*", features = ["client", "transport-child-process"] }
serde = { version = "1", features = ["derive"] }
serde_json = "=1.0.154"
sqlx = { version = "0.8", default-features = false, features = ["runtime-tokio", "sqlite"] }
thiserror = "2"
tokio = { version = "1", features = ["rt-multi-thread", "macros", "sync", "process", "fs", "signal", "time"] }
toml = "0.9"
tracing = "0.1"
tracing-appender = "0.2"
tracing-subscriber = { version = "0.3", features = ["env-filter"] }
uuid = { version = "=1.29.0", features = ["v4", "v7"] }
