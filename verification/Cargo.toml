[package]
name = "umux"
version = "0.1.0"
edition = "2021"
publish = false

[dependencies]
serde = { version = "=1.0.229", features = ["derive"] }
serde_json = "=1.0.154"
time = "=0.3.55"
thiserror = "=2.0.21"
camino = "=1.2.6"
dirs = "=7.0.0"
clap = { version = "=4.6.7", features = ["derive"] }
anyhow = "=1.0.104"
alacritty_terminal = "*"
