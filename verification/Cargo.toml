[package]
name = "termpaste"
version = "0.1.0"
edition = "2021"
publish = false

[dependencies]
regex = "1"
objc2 = { version = "0.6", features = ["exception"] }
objc2-app-kit = "0.3"
