[package]
name = "vrcaster"
version = "0.1.0"
edition = "2021"
publish = false

[dependencies]
rand = "0.9"
serde = { version = "1", features = ["derive"] }
serde_json = "1"
dirs = "6"
keyring = "3"
tokio = { version = "1", features = ["rt-multi-thread", "macros", "process", "io-util", "fs", "sync"] }
zip = { version = "*", default-features = false, features = ["deflate"] }
russh = "*"
russh-sftp = "*"
