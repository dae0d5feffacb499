[package]
name = "hjkl_engine"
version = "0.4.1"
edition = "2021"
publish = false

[dependencies]
hjkl-buffer = "0.3"
regex = "1"
bitflags = "2"
ratatui = "0.30"
crossterm = "0.29"
serde = { version = "1", features = ["derive"] }
thiserror = "2"

[dev-dependencies]
serde_json = "1"
