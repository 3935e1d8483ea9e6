[package]
name = "goat_reuniao"
version = "0.1.0"
edition = "2021"
publish = false

[dependencies]
anyhow = "1"
chrono = "0.4"
cpal = "*"
evdev = "*"
reqwest = { version = "0.12", default-features = false, features = ["blocking", "multipart", "json"] }
serde = { version = "1", features = ["derive"] }
serde_json = "1"
webrtc-vad = "0.4"
