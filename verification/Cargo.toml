[package]
name = "psi-cli"
version = "0.1.0"
edition = "2021"
publish = false

[dependencies]
anyhow = "1"
chrono = "0.4"
clap = { version = "4", features = ["derive"] }
crossterm = "0.28"
dirs = "6"
glob = "0.3"
notify = "8"
ratatui = "0.29"
tokio = { version = "1", features = ["full"] }
unicode-width = "0.2"
