[package]
name = "lazy_counter"
version = "0.1.0"
edition = "2021"
publish = false

[dependencies]
color-eyre = "*"
crossterm = { version = "*", features = ["event-stream"] }
futures = "*"
ratatui = "*"
tokio = { version = "*", features = ["macros", "rt-multi-thread", "sync", "time"] }
