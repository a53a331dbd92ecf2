[package]
name = "pin_coordinator"
version = "0.1.0"
edition = "2021"
publish = false

[dependencies]
web3 = { version = "=0.19.0", default-features = false }
postgres = "=0.19.14"
reqwest = { version = "=0.13.5", default-features = false, features = ["blocking", "json", "multipart", "stream"] }
rocket = { version = "=0.5.1", features = ["json"] }
serde = { version = "=1.0.229", features = ["derive"] }
serde_json = "=1.0.151"
serde_yaml = "=0.9.34"
log = "=0.4.34"
pretty_env_logger = "=0.5.0"
rand = "=0.10.3"
chrono = "=0.4.45"
anyhow = "=1.0.104"
futures-util = "=0.3.34"
hyper = { version = "=0.14.32", features = ["full"] }
