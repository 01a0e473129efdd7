[package]
name = "git-transplant"
version = "0.1.0"
edition = "2021"
publish = false

[dependencies]
anyhow = "1.0"
clap = { version = "4.5", features = ["derive"] }
git2 = { version = "0.20", default-features = false }
ratatui = "0.29"
