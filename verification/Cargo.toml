[package]
name = "ibtop"
version = "0.1.0"
edition = "2021"
publish = false

[dependencies]
rand = "*"
crossterm = "*"
ratatui = "*"
serde = { version = "*", features = ["derive"] }
serde_json = "*"
