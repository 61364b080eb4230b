[package]
name = "hanabot"
version = "0.1.0"
edition = "2021"
publish = false

[dependencies]
eyre = "*"
http = "*"
rand = "0.9"
serde = { version = "*", features = ["derive"] }
serde_json = "*"
slack-morphism = { version = "*", features = ["hyper"] }
tokio = { version = "*", features = ["fs", "io-std", "io-util", "macros", "rt-multi-thread", "sync"] }
