[package]
name = "prezel"
version = "0.1.0"
edition = "2021"
publish = false

[dependencies]
anyhow = "*"
base64 = "=0.22.1"
bollard = "=0.21.1"
chrono = "=0.4.45"
flate2 = "*"
futures = "*"
gitmodules = "*"
jsonwebtoken = "*"
nanoid = "=0.5.0"
serde = { version = "*", features = ["derive"] }
serde_json = "*"
tar = "*"
tokio = { version = "*", features = ["rt-multi-thread", "sync", "macros", "time", "fs", "io-util"] }
url = "*"
