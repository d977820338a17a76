[package]
name = "kvs"
version = "0.1.0"
edition = "2021"
publish = false

[dependencies]
chashmap = "2.2"
clap = "2.33"
crossbeam = "0.7"
env_logger = "0.7"
failure = "0.1"
log = "0.4"
rayon = "1"
serde = { version = "1", features = ["derive"] }
serde_json = "1"
sled = "0.34"
tempfile = "3"
