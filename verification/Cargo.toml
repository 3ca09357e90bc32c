[package]
name = "eel"
version = "0.1.0"
edition = "2021"
publish = false

[dependencies]
smallvec = "1"
rand = { version = "0.8", features = ["small_rng"] }
clap = { version = "4", features = ["derive"] }
