[package]
name = "cosmix"
version = "0.1.0"
edition = "2021"
publish = false

[dependencies]
uuid = { version = "1", features = ["v4"] }
chrono = "0.4"
base64 = "0.22"
blake3 = { version = "1", features = ["pure"] }
bcrypt = "*"
serde = { version = "1", features = ["derive"] }
serde_json = "1"
tokio = { version = "1", features = ["io-util", "net", "rt", "macros", "time"] }
