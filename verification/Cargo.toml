[package]
name = "wvprs"
version = "0.1.0"
edition = "2021"
publish = false

[dependencies]
dashmap = "*"
encoding_rs = "*"
local-ip-address = "*"
rand = "*"
rsip = "*"
serde = { version = "*", features = ["derive"] }
serde_yaml = "*"
textcode = "*"
tokio = { version = "*", features = ["full"] }
uuid = { version = "*", features = ["v4"] }

[dev-dependencies]
sdp-rs = "*"
