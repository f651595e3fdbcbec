[package]
name = "forgehx"
version = "0.1.0"
edition = "2021"
publish = false

[dependencies]
sha2 = "0.10"
serde = { version = "1", features = ["derive"] }
serde_json = "1"
clap = { version = "4", features = ["derive"] }
uuid = { version = "1", features = ["v4"] }
postcard = { version = "1", features = ["use-std"] }
hidapi = "2"
tokio = { version = "1", features = ["rt", "net", "io-util", "sync", "time", "macros"] }
