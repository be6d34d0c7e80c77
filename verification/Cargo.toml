[package]
name = "wpm"
version = "0.1.0"
edition = "2021"
publish = false

[dependencies]
crossterm = "0.27"
log = "0.4"
rand = "0.8"
ratatui = "0.26"
reqwest = { version = "0.11", default-features = false, features = ["blocking"] }
serde = { version = "1.0", features = ["derive"] }
serde_json = "1.0"
