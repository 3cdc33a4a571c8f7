[package]
name = "soundsense-rs"
version = "0.1.0"
edition = "2021"
publish = false

[dependencies]
getopts = "0.2"
regex = "1"
serde = { version = "1", features = ["derive"] }
serde_json = "1"
web-view = "*"
