[package]
name = "varvedb"
version = "0.1.0"
edition = "2021"
publish = false

[dependencies]
aes-gcm = "*"
sha2 = "*"
rand = "0.8"
zeroize = "*"
heed = "*"
tokio = { version = "*", features = ["sync", "rt", "time", "macros"] }
thiserror = "*"
tracing = "*"
tracing-subscriber = { version = "*", features = ["env-filter"] }
prometheus = "*"
