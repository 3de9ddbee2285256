[package]
name = "shikigami"
version = "0.1.0"
edition = "2021"
publish = false

[dependencies]
anyhow = "1"
clap = { version = "4", features = ["derive"] }
clap_complete = "4"
crossterm = "0.28"
ratatui = "0.29"
ansi-to-tui = "7"
serde = { version = "1", features = ["derive"] }
serde_json = "1"
dirs = "6"
kaishin = "*"
tokio = { version = "1", features = ["rt"] }
