[package]
name = "majournee_desktop"
version = "0.18.0"
edition = "2021"
publish = false

[dependencies]
log = "0.4"
notify-rust = "4"
opener = "*"
serde = { version = "1", features = ["derive"] }
serde_json = "1"
time = { version = "0.3", features = ["local-offset"] }
