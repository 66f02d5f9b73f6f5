[package]
name = "carbon"
version = "0.1.0"
edition = "2021"
publish = false

[dependencies]
bit-vec = "0.6"
buckets = "*"
talk = "*"
serde = { version = "1", features = ["derive"] }
serde_json = "1"
tokio = { version = "1", features = ["full"] }
futures = "0.3"
log = "0.4"
env_logger = "*"
clap = "2"
rayon = "1"
