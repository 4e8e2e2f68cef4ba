[package]
name = "colly"
version = "0.1.0"
edition = "2021"
publish = false

[dependencies]
config = "0.10"
failure = "0.1"
serde = { version = "1", features = ["derive"] }
