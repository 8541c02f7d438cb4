[package]
name = "asciigram"
version = "0.1.0"
edition = "2021"
publish = false

[dependencies]
arboard = "*"
crossterm = "*"
ratatui = "*"
serde = { version = "*", features = ["derive"] }
serde_json = "*"
