[package]
name = "birthday_tg_rs"
version = "0.1.0"
edition = "2021"
publish = false

[dependencies]
chrono = "=0.4.45"
config = "=0.11.0"
lazy_static = "=1.5.1"
rusqlite = { version = "=0.26.3", features = ["bundled"] }
serde = { version = "=1.0.229", features = ["derive"] }
takecell = "=0.1.0"
teloxide = { version = "=0.7.3", features = ["macros", "auto-send"] }
tokio = { version = "=1.54.1", features = ["full"] }
tokio-util = { version = "=0.6.10", features = ["codec"] }
