[package]
name = "workplacesim"
version = "0.1.0"
edition = "2021"
publish = false

[dependencies]
indexmap = "=2.14.2"
serde = { version = "=1.0.229", features = ["derive"] }
serde_json = "=1.0.154"
tokio = { version = "=1.54.1", features = ["full"] }
tokio-stream = { version = "=0.1.19", features = ["sync"] }
axum = "=0.7.9"
tower-http = { version = "=0.5.2", features = ["cors"] }
parking_lot = "=0.12.5"
tracing = "=0.1.44"
tracing-subscriber = { version = "=0.3.23", features = ["env-filter"] }
anyhow = "=1.0.104"
dirs = "=5.0.1"
futures = "=0.3.34"
libc = "=0.2.191"
memmap2 = "=0.9.12"
nix = { version = "=0.29.0", features = ["signal", "hostname"] }
chrono = "=0.4.45"
embedded-graphics = "=0.8.2"
mdns-sd = "=0.21.7"
minifb = "0.27"
