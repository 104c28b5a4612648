[package]
name = "match3"
version = "0.1.0"
edition = "2021"
publish = false

[dependencies]
base64 = "0.21"
bevy = { version = "0.13", default-features = false }
rand = "0.8"
sha2 = "0.10"
