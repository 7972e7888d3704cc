[package]
name = "gambling_bot"
version = "0.1.0"
edition = "2021"
publish = false

[dependencies]
rand = "0.8"
serde = { version = "1", features = ["derive"] }
serde_json = "1"
serenity = "0.11"
tokio = { version = "1", features = ["macros", "rt-multi-thread", "time"] }
redis = "*"
mysql_async = "*"
tracing = "0.1"
tracing-subscriber = "0.3"
