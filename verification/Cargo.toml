[package]
name = "tunnet_core"
version = "0.1.0"
edition = "2021"
publish = false

[dependencies]
aes-gcm = "*"
anyhow = "*"
arc-swap = "*"
async-trait = "*"
axum = "*"
base64 = "*"
bytes = "*"
chrono = "*"
dashmap = "*"
futures-util = "*"
hex = "*"
hkdf = "*"
httparse = "*"
ipnet = "*"
iroh = { version = "*", default-features = false }
iroh-base = { version = "*", features = ["key"] }
parking_lot = "*"
rand = "*"
serde = { version = "1", features = ["derive"] }
serde_json = "1"
sha2 = "*"
tokio = { version = "1", features = ["full"] }
tracing = "*"
uuid = { version = "1", features = ["v4"] }
zeroize = "1"
