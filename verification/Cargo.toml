[package]
name = "hibiscus_core"
version = "0.1.0"
edition = "2021"
publish = false

[dependencies]
chrono = "*"
urlencoding = "*"
reqwest = { version = "*", default-features = false, features = ["cookies"] }
tokio = { version = "*", features = ["full"] }
futures-util = "*"
rusqlite = { version = "*", features = ["bundled"] }
