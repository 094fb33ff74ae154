[package]
name = "reticulum_node"
version = "0.1.0"
edition = "2021"
publish = false

[dependencies]
reticulum = "=0.1.0"
zeroize = "=1.9.1"
tokio = { version = "=1.54.1", features = ["full"] }
tokio-util = "=0.7.20"
tiny_http = "=0.12.0"
glob = "=0.3.4"
log = "=0.4.34"
env_logger = "=0.11.11"
rand_core = { version = "=0.6.4", features = ["getrandom"] }
serde = { version = "=1.0.229", features = ["derive"] }
serde_json = "=1.0.154"
sha2 = "=0.10.9"
inventory = "=0.3.25"
sx1262 = "=0.3.0"
regiface = "=0.2.5"
esp-idf-svc = "*"
esp-idf-hal = "*"
esp-idf-sys = "*"
esp32-nimble = "*"
