[package]
name = "myriad"
version = "0.1.0"
edition = "2021"
publish = false

[dependencies]
axum = { version = "*", default-features = false, features = ["json"] }
base64 = "0.22"
chrono = "0.4"
hex = "0.4"
hmac = "*"
ipnet = "2"
md5 = "*"
rand = "*"
reqwest = { version = "*", default-features = false, features = ["json"] }
sea-orm = { version = "*", default-features = false }
serde = { version = "1", features = ["derive"] }
serde_json = "1"
sha2 = "*"
subtle = "2"
tokio = { version = "1", features = ["sync", "time", "macros", "rt"] }
tracing = "0.1"
uuid = { version = "1", features = ["v4"] }
