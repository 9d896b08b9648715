[package]
name = "termsnoop"
version = "0.1.0"
edition = "2021"
publish = false

[dependencies]
anyhow = "=1.0.104"
chrono = { version = "=0.4.45", features = ["serde"] }
clap = { version = "=4.6.7", features = ["derive"] }
crossterm = "=0.29.0"
dirs = "=7.0.0"
portable-pty = "=0.9.0"
rand = "=0.8.8"
rmcp = { version = "=3.8.0", features = ["server", "transport-io", "macros"] }
serde = { version = "=1.0.229", features = ["derive"] }
serde_json = "=1.0.154"
strip-ansi-escapes = "=0.2.1"
tokio = { version = "=1.54.1", features = ["full"] }
toml = "=1.1.8"
