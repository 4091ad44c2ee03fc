[package]
name = "meetclaw"
version = "0.1.0"
edition = "2021"
publish = false

[dependencies]
serde = { version = "1", features = ["derive"] }
serde_json = "1"
hound = "3.5"
reqwest = { version = "0.12", default-features = false, features = ["blocking", "json", "rustls-tls"] }
keyring = "3"
zip = { version = "2", default-features = false, features = ["deflate"] }
dotenvy = "0.15"
cpal = "0.15"
whisper-rs = "0.14"
