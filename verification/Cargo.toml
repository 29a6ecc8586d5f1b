[package]
name = "rlottie_core"
version = "0.1.0"
edition = "2021"
publish = false

[dependencies]
fontdue = "*"
serde = { version = "*", features = ["derive"] }
serde_json = "*"
base64 = "*"
image = { version = "*", default-features = false, features = ["png", "jpeg"] }
