[package]
name = "volumesetup"
version = "0.1.0"
edition = "2021"
publish = false

[dependencies]
aargvark = "*"
loga = "*"
path-absolutize = "*"
serde = { version = "1", features = ["derive"] }
serde_json = "1"
