[package]
name = "galnet"
version = "0.1.0"
edition = "2021"
publish = false

[dependencies]
chrono = "*"
futures = "*"
reqwest = { version = "*", default-features = false }
scraper = "*"
serde = { version = "*", features = ["derive"] }
serde_json = "*"
tokio = { version = "*", features = ["macros", "rt-multi-thread"] }
