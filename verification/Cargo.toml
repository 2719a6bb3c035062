[package]
name = "clustered"
version = "0.1.0"
edition = "2021"
publish = false

[dependencies]
flume = "=0.11.1"
rayon = "1"
serde = { version = "=1.0.229", features = ["derive"] }
serde_json = "=1.0.154"
serde_with = { version = "=3.24.0", features = ["base64"] }
tokio = { version = "=1.54.1", features = ["rt", "rt-multi-thread", "net", "io-util", "io-std", "sync", "time", "fs"] }
uuid = { version = "=1.29.0", features = ["v7"] }
wgpu = "=22.1.0"
