[package]
name = "ravyn"
version = "0.1.0"
edition = "2021"
publish = false

[dependencies]
serde = { version = "1", features = ["derive"] }
serde_json = "1"
percent-encoding = "2"
sha2 = "0.10"
hex = "0.4"
url = "2"
uuid = { version = "1", features = ["v4"] }
tokio = { version = "1", features = ["sync", "time", "rt", "macros"] }
libc = "0.2"
