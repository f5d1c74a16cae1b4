[package]
name = "octos-tui"
version = "0.1.0"
edition = "2021"
publish = false

[dependencies]
sha2 = "0.10"
unicode-width = "0.2"
shlex = "1"
serde = { version = "1", features = ["derive"] }
serde_json = "1"
uuid = { version = "1", features = ["serde"] }
ratatui = "0.29"
crossterm = "0.28"
eyre = "0.6"
color-eyre = "0.6"
