[package]
name = "vector"
version = "0.1.0"
edition = "2021"
publish = false

[dependencies]
flate2 = "*"
url = "*"
http = "*"
chrono = "*"
uuid = { version = "*", features = ["v4"] }
serde = { version = "*", features = ["derive"] }
serde_json = "*"
