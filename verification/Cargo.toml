[package]
name = "proxy_state"
version = "0.1.0"
edition = "2021"
publish = false

[dependencies]
anyhow = "1"
educe = "0.6"
futures-util = { version = "0.3", default-features = false, features = ["std"] }
hickory-resolver = "0.25"
itertools = "0.14"
rand = "0.9"
serde = { version = "1", features = ["derive"] }
tokio = { version = "1", features = ["macros", "rt", "sync", "time"] }
tracing = "0.1"
