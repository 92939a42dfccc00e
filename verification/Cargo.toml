[package]
name = "ciborium"
version = "0.1.0"
edition = "2021"
publish = false

[dependencies]
serde = { version = "1", features = ["derive"] }
embedded-io = "0.6"

[dev-dependencies]
half = "2"
hex = "0.4"
rand = "0.8"
