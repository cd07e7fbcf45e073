[package]
name = "oma"
version = "0.1.0"
edition = "2021"
publish = false

[dependencies]
similar = "=2.7.0"
libc = "=0.2.191"
serde_json = "=1.0.154"
chrono = "=0.4.45"
uuid = { version = "=1.29.0", features = ["v4"] }
serde = { version = "=1.0.229", features = ["derive"] }
tokio = { version = "1", features = ["rt-multi-thread", "macros", "sync", "time"] }
reqwest = { version = "0.12", default-features = false, features = ["rustls-tls", "stream", "json"] }
futures-util = "0.3"
bytes = "1"
