[package]
name = "waasabi_matrix"
version = "0.1.0"
edition = "2021"
publish = false

[dependencies]
anyhow = "=1.0.104"
crossbeam-channel = "=0.5.17"
env_logger = "=0.11.11"
futures-util = "=0.3.34"
governor = "=0.10.4"
http = "=1.5.0"
hyper = { version = "=0.14.32", features = ["server", "http1", "tcp"] }
log = "=0.4.34"
reqwest = { version = "=0.13.5", default-features = false, features = ["json"] }
ruma = { version = "=0.17.0", features = ["client-api-c"] }
ruma-client = { version = "=0.20.0", features = ["client-api", "hyper"] }
serde = { version = "=1.0.229", features = ["derive"] }
serde_json = "=1.0.151"
tokio = { version = "=1.53.2", features = ["rt-multi-thread", "macros", "time"] }
toml = "=1.1.7"
