[package]
name = "grin_backup"
version = "0.1.0"
edition = "2021"
publish = false

[dependencies]
chrono = { version = "0.4", default-features = false, features = ["std", "clock"] }
glob = "0.3"
serde = { version = "1", features = ["derive"] }
