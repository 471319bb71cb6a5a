[package]
name = "chagle"
version = "0.1.0"
edition = "2021"
publish = false

[dependencies]
anyhow = "1"
backoff = { version = "0.4", features = ["tokio"] }
bincode = "1"
bytes = "1"
clap = { version = "4", features = ["derive"] }
hex = "0.4"
httparse = "1"
rand = "0.8"
serde = { version = "1", features = ["derive"] }
serde_json = "1"
serde_yaml = "0.9"
sha2 = "0.10"
tokio = { version = "1", features = ["full"] }
toml = "0.8"
tracing = "0.1"
url = { version = "2", features = ["serde"] }
