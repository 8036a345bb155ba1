[package]
name = "hopper"
version = "0.1.0"
edition = "2021"
publish = false

[dependencies]
cityhasher = "*"
urlencoding = "*"
tokio = { version = "*", features = ["rt", "macros", "rt-multi-thread"] }
reqwest = { version = "*", default-features = false, features = ["json", "rustls-tls"] }
serde = { version = "*", features = ["derive"] }
serde_json = "*"
