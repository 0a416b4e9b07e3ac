[package]
name = "agent_manip"
version = "0.1.0"
edition = "2021"
publish = false

[dependencies]
chrono = "0.4"
clap = { version = "4", features = ["derive"] }
serde = { version = "1", features = ["derive"] }
serde_json = "1"
sysinfo = "0.30"
libc = "0.2"
anyhow = "1"
thiserror = "1"
tiny_http = "0.12"
dirs = "5"
crossterm = "0.27"
ratatui = "0.26"
rusqlite = { version = "0.31", features = ["bundled"] }
env_logger = "0.11"
tokio = { version = "1", features = ["rt-multi-thread", "macros", "time"] }
