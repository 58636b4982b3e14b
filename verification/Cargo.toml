[package]
name = "polyresearch"
version = "0.1.0"
edition = "2021"
publish = false

[dependencies]
chrono = { version = "0.4", features = ["serde"] }
clap = { version = "4", features = ["derive"] }
color-eyre = "0.6"
crossterm = "*"
globset = "0.4"
rand = "*"
ratatui = "*"
regex = "1"
serde = { version = "1", features = ["derive"] }
serde_json = "1"
sha2 = "*"
sysinfo = "*"
tokio = { version = "1", features = ["macros", "rt-multi-thread", "sync", "time"] }
toml = "*"
walkdir = "2"
