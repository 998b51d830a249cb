[package]
name = "mission_control"
version = "0.1.0"
edition = "2021"
publish = false

[dependencies]
serde = { version = "1", features = ["derive"] }
serde_json = "1"
chrono = { version = "0.4", features = ["serde"] }
uuid = { version = "1", features = ["v4", "serde"] }
clap = { version = "4", features = ["derive"] }
dirs = "5"
interprocess = "2"
toml = "0.8"
thiserror = "2"
tokio = { version = "1", features = ["full"] }
axum = "0.8"
tower-http = { version = "0.6", features = ["cors"] }
tokio-stream = "0.1"
async-stream = "0.3"
ratatui = "0.29"
crossterm = "0.28"
schemars = { version = "0.8", features = ["chrono", "uuid1"] }
