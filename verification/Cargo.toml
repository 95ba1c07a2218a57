[package]
name = "rpsee"
version = "0.1.0"
edition = "2021"
publish = false

[dependencies]
blake3 = "1"
futures-util = "0.3"
http-body-util = "0.1"
hyper = { version = "1", features = ["server", "http1"] }
hyper-tungstenite = "*"
hyper-util = { version = "0.1", features = ["tokio"] }
jsonwebtoken = "9"
rand = "0.9"
reqwest = { version = "0.12", default-features = false, features = ["json"] }
serde = { version = "1", features = ["derive"] }
serde_json = "1"
simd-json = "*"
tokio = { version = "1", features = ["full"] }
tokio-stream = { version = "0.1", features = ["sync"] }
tokio-tungstenite = "*"
tracing = "0.1"
url = "2"
xxhash-rust = { version = "0.8", features = ["xxh3"] }
