[package]
name = "ratings"
version = "0.1.0"
edition = "2021"
publish = false

[dependencies]
anyhow = "1"
chrono = { version = "0.4", default-features = false, features = ["std", "clock"] }
fxhash = "0.2"
rocket = { version = "0.5", features = ["json"] }
rusqlite = { version = "*", features = ["bundled"] }
