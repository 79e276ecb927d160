[package]
name = "panex"
version = "0.1.0"
edition = "2021"
publish = false

[dependencies]
anyhow = "*"
clap = { version = "*", features = ["derive"] }
crossterm = { version = "*", features = ["event-stream"] }
futures = "*"
portable-pty = "*"
ratatui = "*"
tokio = { version = "*", features = ["rt-multi-thread", "macros", "sync", "time"] }
