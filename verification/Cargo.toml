[package]
name = "seer"
version = "0.1.0"
edition = "2021"
publish = false

[dependencies]
anyhow = "1"
chrono = "0.4"
clap = { version = "4", features = ["derive"] }
crossterm = "0.27"
csv = "1"
dirs = "5"
md5 = "0.7"
num_cpus = "1"
ratatui = "0.26"
serde = { version = "1", features = ["derive"] }
serde_json = "1"
sysinfo = "0.30"
tokio = { version = "1", features = ["full"] }
toml = "0.8"
