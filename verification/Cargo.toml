[package]
name = "duzzy-editor"
version = "0.1.0"
edition = "2021"
publish = false

[dependencies]
ropey = "1.6"
anyhow = "1"
log = "0.4"
crossterm = { version = "*", features = ["event-stream"] }
ratatui = "*"
tokio = { version = "1", features = ["rt-multi-thread", "macros", "time"] }
futures-util = "0.3"
