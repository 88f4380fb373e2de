[package]
name = "imgdata"
version = "0.1.0"
edition = "2021"
publish = false

[dependencies]
ansi_term = "0.12"
image = { version = "0.25", default-features = false, features = ["png"] }
ron = "0.8"
serde = { version = "1", features = ["derive"] }
