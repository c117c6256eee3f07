[package]
name = "keys"
version = "0.1.0"
edition = "2021"
publish = false

[dependencies]
image = "*"
minifb = "*"
rodio = "*"
serde = { version = "*", features = ["derive"] }
serde_derive = "*"
serde_json = "*"
