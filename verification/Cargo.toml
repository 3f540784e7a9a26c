[package]
name = "yabai-id"
version = "0.1.0"
edition = "2021"
publish = false

[dependencies]
dispatch2 = "0.3"
libc = "0.2"
objc2 = "0.6"
objc2-app-kit = "0.3"
objc2-foundation = "0.3"
serde = { version = "1", features = ["derive"] }
serde_json = "1"
