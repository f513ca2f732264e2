[package]
name = "minigit"
version = "0.1.0"
edition = "2021"
publish = false

[dependencies]
sha2 = "*"
rand = "*"
chrono = "*"

[dev-dependencies]
serde_json = "*"
