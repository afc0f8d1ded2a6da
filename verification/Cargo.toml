[package]
name = "buddhabrot"
version = "0.1.0"
edition = "2021"
publish = false

[dependencies]
chrono = { version = "0.4", default-features = false, features = ["clock", "std"] }
image = { version = "0.24", default-features = false, features = ["png"] }
rand = { version = "0.8", features = ["small_rng"] }
