[package]
name = "kv"
version = "0.1.0"
edition = "2021"
publish = false

[dependencies]
clap = { version = "=4.6.7", features = ["env"] }
clap_complete = "=4.6.11"
log = "=0.4.34"
pretty_env_logger = "=0.5.0"
serde = "=1.0.229"
serde_json = "=1.0.151"
shellexpand = "=3.1.2"
walkdir = "=2.5.0"
