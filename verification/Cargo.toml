[package]
name = "serde_with"
version = "0.1.0"
edition = "2021"
publish = false

[dependencies]
serde = { version = "1", features = ["derive"] }
serde_json = "1"
hex = "0.4"
chrono = { version = "0.4", default-features = false, features = ["serde", "std"] }
serde_with_macros = "1"
