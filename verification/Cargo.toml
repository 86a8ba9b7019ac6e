[package]
name = "trading_data"
version = "0.1.0"
edition = "2021"
publish = false

[dependencies]
arrow = { version = "55", default-features = false }
chrono = "0.4"
crc32fast = "1"
futures-util = "0.3"
num-traits = "0.2"
parquet = { version = "55", default-features = false, features = ["arrow", "zstd"] }
rand = "0.9"
reqwest = { version = "0.12", default-features = false, features = ["json", "rustls-tls"] }
rmp-serde = "1"
rust_decimal = "1"
serde = { version = "1", features = ["derive"] }
serde_json = "1"
tokio = { version = "1", features = ["full"] }
tokio-tungstenite = { version = "0.26", features = ["rustls-tls-webpki-roots"] }
tokio-util = "0.7"
toml = "0.8"
tracing = "0.1"
tracing-subscriber = { version = "0.3", features = ["env-filter"] }
