[package]
name = "stats_refresh"
version = "0.1.0"
edition = "2021"
publish = false

[dependencies]
serde_json = "*"
serde = { version = "*", features = ["derive"] }
flate2 = "*"
reqwest = { version = "*", default-features = false }
tokio = { version = "*", features = ["rt-multi-thread", "macros", "time"] }
aws-config = "*"
aws-sdk-dynamodb = "*"
