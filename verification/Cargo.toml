[package]
name = "droidgear"
version = "0.1.0"
edition = "2021"
publish = false

[dependencies]
serde_json = "*"
json_comments = "*"
toml = "*"
uuid = { version = "*", features = ["v4"] }
chrono = "*"
dirs = "*"
