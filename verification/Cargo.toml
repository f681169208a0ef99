[package]
name = "yapraq"
version = "0.1.0"
edition = "2021"
publish = false

[dependencies]
anyhow = "1"
crossterm = { version = "0.28", features = ["event-stream"] }
directories = "5"
dirs = "5"
futures = "0.3"
ratatui = "0.29"
rusb = "0.9"
sysinfo = "0.33"
tokio = { version = "1", features = ["full"] }
walkdir = "2"
