[package]
name = "rail2ban"
version = "0.1.0"
edition = "2021"
publish = false

[dependencies]
anyhow = "1"
argon2 = "0.5"
axum = "0.7"
chrono = "0.4"
clap = "4"
glob = "0.3"
indexmap = "2"
inotify = "0.10"
ipnet = "2"
nix = { version = "0.29", features = ["hostname"] }
parking_lot = "0.12"
rand = "0.8"
regex = "1"
rusqlite = { version = "0.31", features = ["bundled"] }
serde = { version = "1", features = ["derive"] }
serde_json = "1"
shlex = "1"
thiserror = "1"
tokio = { version = "1", features = ["full"] }
tower-http = { version = "0.5", features = ["cors"] }
tracing = "0.1"
tracing-subscriber = { version = "0.3", features = ["env-filter"] }
