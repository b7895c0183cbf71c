[package]
name = "local-ham-dashboard"
version = "0.1.0"
edition = "2021"
publish = false

[dependencies]
axum = "=0.8.9"
chrono = "=0.4.45"
clap = { version = "=4.6.7", features = ["derive"] }
color-eyre = "=0.6.5"
crossterm = "=0.29.0"
figlet-rs = "=0.1.5"
ratatui = "=0.30.2"
reqwest = { version = "=0.13.5", features = ["json"] }
rss = "=2.1.2"
serde = { version = "=1.0.229", features = ["derive"] }
serde_yaml = "=0.9.34"
sgp4 = "=2.4.0"
tokio = { version = "=1.54.1", features = ["full"] }
tower-http = { version = "=0.6.11", features = ["fs"] }
