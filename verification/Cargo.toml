[package]
name = "maki"
version = "0.1.0"
edition = "2021"
publish = false

[dependencies]
async-trait = "0.1"
crc32fast = "1"
libc = "0.2"
parking_lot = "0.12"
rand = "0.9"
rand_chacha = "0.9"
serde = { version = "1", features = ["derive"] }
serde_json = "1"
thiserror = "2"
tokio = { version = "1", features = ["io-util", "net", "rt", "time"] }
toml = "0.8"
tracing = "0.1"
