[package]
name = "wasmdome_protocol"
version = "0.1.0"
edition = "2021"
publish = false

[dependencies]
chrono = { version = "*", features = ["serde"] }
serde = { version = "*", features = ["derive"] }
serde_derive = "*"
serde_json = "*"
wasmdome-domain = "*"
