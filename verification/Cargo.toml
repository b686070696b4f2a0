[package]
name = "aerial_core"
version = "0.1.0"
edition = "2021"
publish = false

[dependencies]
tar = "0.4"
serde = { version = "1", features = ["derive"] }
serde_json = "1"
reqwest = { version = "0.12", default-features = false, features = ["rustls-tls", "stream"] }
tokio = { version = "1", features = ["rt-multi-thread", "macros", "fs", "io-util", "sync", "time"] }
futures-util = "0.3"
thiserror = "2"
tracing = "0.1"
zbus = "5"
dirs = "6"
once_cell = "1"
libc = "0.2"
