[package]
name = "eso_addon_manager"
version = "0.1.0"
edition = "2021"
publish = false

[dependencies]
serde = { version = "*", features = ["derive"] }
serde_json = "*"
thiserror = "*"
tempfile = "*"
chrono = "*"
directories = "*"
zip = { version = "*", default-features = false, features = ["deflate"] }
rusqlite = { version = "*", features = ["bundled"] }
reqwest = { version = "*", default-features = false, features = ["rustls-tls", "stream", "json"] }
tokio = { version = "*", features = ["rt", "fs", "io-util", "macros"] }
futures-util = "*"
