[package]
name = "snap-coin-pool"
version = "1.3.0"
edition = "2021"
publish = false

[dependencies]
anyhow = "1"
axum = { version = "0.7", features = ["ws"] }
bincode = "=1.3.3"
chrono = "=0.4.45"
dotenvy = "0.15"
envy = "0.4"
num-bigint = "=0.4.8"
serde = { version = "1", features = ["derive"] }
serde_json = "1"
sled = "=0.34.7"
snap-coin = { version = "=16.1.0", features = ["light"] }
tokio = { version = "1", features = ["full"] }
tower-http = { version = "0.6", features = ["cors", "fs"] }
tracing = "0.1"
tracing-subscriber = { version = "0.3", features = ["env-filter", "local-time"] }
