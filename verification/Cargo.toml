[package]
name = "kerux"
version = "0.1.0"
edition = "2021"
publish = false

[dependencies]
actix-web = "=3.3.3"
base64 = "=0.13.1"
bincode = "1.3"
chrono = "=0.4.45"
crossbeam = "0.8"
futures = "0.3"
rand = "=0.8.8"
ring = "=0.16.20"
rust-argon2 = "=0.8.3"
serde = { version = "1", features = ["derive"] }
serde_canonical = "=0.1.0"
serde_json = "=1.0.154"
sled = "0.34"
tokio = { version = "0.2", features = ["full"] }
tokio-postgres = { version = "0.5", features = ["with-serde_json-1", "with-uuid-0_8"] }
toml = "0.5"
tracing = "0.1"
tracing-error = "0.2"
tracing-subscriber = { version = "0.3", features = ["env-filter"] }
uuid = { version = "=0.8.2", features = ["v4", "serde"] }
