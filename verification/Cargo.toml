[package]
name = "lettering_core"
version = "0.1.0"
edition = "2021"
publish = false

[dependencies]
regex = "=1.13.1"
sha2 = "=0.10.9"
serde = { version = "=1.0.229", features = ["derive"] }
serde_json = "=1.0.154"
tokio = { version = "=1.54.1", features = ["rt-multi-thread", "macros", "net", "io-util", "sync", "time"] }
redis = { version = "=1.8.1", features = ["tokio-comp"] }
anyhow = "=1.0.104"
thiserror = "=2.0.21"
uuid = { version = "=1.29.0", features = ["v4", "v7", "serde"] }
chrono = { version = "=0.4.45", features = ["serde"] }
tracing = "=0.1.44"
tracing-subscriber = "0.3"
dotenvy = "=0.15.7"
async-trait = "=0.1.92"
bytes = "=1.12.1"
lazy_static = "=1.5.1"
validator = "=0.21.0"
image = { version = "0.25", default-features = false, features = ["png", "jpeg", "webp"] }
