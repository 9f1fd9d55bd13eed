[package]
name = "youtube_viewcount_logger_rust"
version = "0.1.0"
edition = "2021"
publish = false

[dependencies]
anyhow = "1"
chrono = "0.4"
cron = "*"
duckdb = "*"
futures = "0.3"
reqwest = { version = "*", features = ["json"] }
serde = { version = "1", features = ["derive"] }
serde_json = "1"
sha2 = "*"
tokio = { version = "1", features = ["macros", "rt-multi-thread"] }
unescaper = "*"
url = "2"
