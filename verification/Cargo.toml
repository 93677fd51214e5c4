[package]
name = "igra_cli"
version = "0.12.0"
edition = "2021"
publish = false

[dependencies]
anyhow = "=1.0.104"
argon2 = { version = "=0.5.3", features = ["std"] }
chrono = "=0.4.45"
clap = { version = "=4.6.7", features = ["derive"] }
dirs = "=5.0.1"
ipnetwork = "=0.20.0"
regex = "=1.13.1"
semver = "=1.0.28"
serde = { version = "=1.0.229", features = ["derive"] }
serde_json = "=1.0.154"
serde_yaml = "=0.9.34"
toml = "=0.8.23"
tokio = { version = "1", features = ["rt-multi-thread", "macros", "time"] }
reqwest = { version = "0.12", default-features = false, features = ["json", "rustls-tls"] }
bollard = "0.17"
futures = "0.3"
ratatui = "0.29"
crossterm = "0.28"
