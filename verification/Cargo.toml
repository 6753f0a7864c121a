[package]
name = "vddb"
version = "0.1.0"
edition = "2021"
publish = false

[dependencies]
rustyline = "*"
env_logger = "*"
log = "*"
chrono = "*"
metrics = "*"
metrics-exporter-prometheus = "*"
ordered-float = "*"
serde = { version = "*", features = ["derive"] }
serde_json = "*"
bincode = "*"
