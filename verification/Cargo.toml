[package]
name = "counterparser"
version = "0.1.0"
edition = "2021"
publish = false

[dependencies]
anyhow = "1"
async-trait = "0.1"
axum = "0.8"
base64 = "0.22"
dashmap = "6"
hickory-resolver = "0.24"
hmac = "0.12"
ipnet = { version = "2", features = ["serde"] }
moka = { version = "0.12", features = ["sync", "future"] }
rand = "0.8"
serde = { version = "1", features = ["derive"] }
sha2 = "0.10"
subtle = "2"
time = "0.3"
tokio = { version = "1", features = ["macros", "rt-multi-thread", "net"] }
toml = "0.8"
tracing = "0.1"
tracing-subscriber = "0.3"
