[package]
name = "aggregate"
version = "0.1.0"
edition = "2021"
publish = false

[dependencies]
petgraph = "0.5"
crc = "1.8"
serde = { version = "1", features = ["derive"] }
serde_json = "1"
glob = "0.3"
notify = "4"
ansi_term = "0.12"
chrono = "0.4"
async-std = "1"
futures = "0.3"
lazy_static = "1"

[dev-dependencies]
regex = "1"
