[package]
name = "key_transparency"
version = "0.1.0"
edition = "2021"
publish = false

[dependencies]
ed25519-dalek = { version = "=1.0.1", features = ["batch"] }
rand = "=0.7.3"
tokio = { version = "=1.54.1", features = ["rt-multi-thread", "macros", "net", "sync", "time", "io-util"] }
tokio-util = { version = "=0.7.20", features = ["codec"] }
bytes = "=1.12.1"
futures = "=0.3.34"
log = "=0.4.34"
env_logger = "=0.9.3"
clap = { version = "=3.2.25", features = ["cargo"] }
anyhow = "=1.0.104"
rocksdb = { version = "=0.25.0", default-features = false }
akd = { version = "=0.8.9", features = ["serde_serialization"] }
async-trait = "0.1"
bincode = "=1.3.3"
