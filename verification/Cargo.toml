[package]
name = "foxwatch"
version = "0.1.0"
edition = "2021"
publish = false

[dependencies]
serde = { version = "1", features = ["derive"] }
serde_json = "1"
uuid = { version = "1", features = ["v4", "serde"] }
chrono = { version = "0.4", features = ["serde"] }
tokio = { version = "1", features = ["full"] }
rumqttc = { version = "0.24", default-features = false }
rdkafka = "0.36"
reqwest = { version = "0.12", default-features = false }
log = "0.4"
env_logger = { version = "0.11", default-features = false }
