[package]
name = "rai_toolkit"
version = "0.1.0"
edition = "2021"
publish = false

[dependencies]
geocoder-abbreviations = "*"
fancy-regex = "*"
memchr = "*"
serde = { version = "*", features = ["derive"] }
serde_json = "*"
