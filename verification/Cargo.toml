[package]
name = "ratodo"
version = "0.7.0"
edition = "2021"
publish = false

[dependencies]
anyhow = "1"
chrono = "0.4"
clap = { version = "4", features = ["derive"] }
crossterm = "*"
directories = "*"
notify = "*"
ratatui = "*"
