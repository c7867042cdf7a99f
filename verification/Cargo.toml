[package]
name = "frametrace"
version = "0.1.0"
edition = "2021"
publish = false

[dependencies]
fundu-core = "*"
serde = { version = "1", features = ["derive"] }
serde_json = "1"
clap = { version = "4", features = ["derive"] }
ratatui = "0.29"
