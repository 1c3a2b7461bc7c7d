[package]
name = "grit"
version = "0.1.0"
edition = "2021"
publish = false

[dependencies]
git2 = { version = "*", default-features = false }
chrono = "*"
clap = { version = "*", features = ["derive"] }
color-eyre = "*"
ratatui = "*"
thiserror = "*"
