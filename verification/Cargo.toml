[package]
name = "lala_pipeline"
version = "0.1.0"
edition = "2021"
publish = false

[dependencies]
uuid = { version = "*", features = ["v4"] }
chrono = "*"
anyhow = "*"
rusqlite = { version = "*", features = ["bundled"] }
