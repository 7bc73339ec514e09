[package]
name = "tweet_query"
version = "0.1.0"
edition = "2021"
publish = false

[dependencies]
mongodb = "3"
serde = { version = "1", features = ["derive"] }
serde_json = "1"
tokio = { version = "1", features = ["full"] }
futures = "0.3"
ratatui = "0.29"
crossterm = "0.28"
