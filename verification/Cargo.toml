[package]
name = "opendeck"
version = "0.1.0"
edition = "2021"
publish = false

[dependencies]
dashmap = "=6.1.0"
base64 = "=0.22.1"
image = { version = "0.25", default-features = false, features = ["png"] }
ab_glyph = "0.2"
anyhow = "1"
log = "0.4"
serde = { version = "1", features = ["derive"] }
serde_json = "1"
tokio = { version = "1", features = ["rt", "time", "sync", "fs"] }
tauri = { version = "2", default-features = false }
elgato-streamdeck = { version = "*", default-features = false, features = ["async"] }
hidapi = "2"
