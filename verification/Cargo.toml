[package]
name = "fff_tui"
version = "0.1.0"
edition = "2021"
publish = false

[dependencies]
fff-search = "=0.11.0"
unicode-width = "=0.2.0"
ratatui = "=0.29.0"
crossterm = "=0.28.1"
clap = { version = "=4.6.7", features = ["derive"] }
anyhow = "=1.0.104"
dirs = "=5.0.1"
