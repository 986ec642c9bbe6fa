[package]
name = "blobstore"
version = "0.1.0"
edition = "2021"
publish = false

[dependencies]
crc32fast = "1"
clap = { version = "4", features = ["derive"] }
hyper = { version = "0.14", features = ["http1", "server", "tcp"] }
tokio = { version = "1", features = ["rt-multi-thread", "macros", "sync"] }
prometheus-client = "0.18"
serde = { version = "1", features = ["derive"] }
toml = "0.8"
