[package]
name = "workflows"
version = "0.1.0"
edition = "2021"
publish = false

[dependencies]
serde_yaml = "0.9"
git2 = { version = "*", default-features = false }
clap = { version = "4", features = ["derive"] }
ratatui = "0.26"
crossterm = "0.27"
