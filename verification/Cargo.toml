[package]
name = "object_store"
version = "0.1.0"
edition = "2021"
publish = false

[dependencies]
chrono = { version = "=0.4.45", default-features = false, features = ["std", "serde"] }
quick-xml = { version = "=0.31.0", features = ["serialize"] }
serde = { version = "=1.0.229", features = ["derive"] }
