[package]
name = "clipfile"
version = "0.1.0"
edition = "2021"
publish = false

[dependencies]
flate2 = "1"
image = { version = "0.25", default-features = false }
rusqlite = { version = "*", features = ["bundled", "serialize"] }
