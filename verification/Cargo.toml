[package]
name = "stockwatch"
version = "0.1.0"
edition = "2021"
publish = false

[dependencies]
chrono = "0.4"
rusqlite = { version = "*", features = ["bundled"] }
market-data = "*"
tokio = { version = "1", features = ["rt-multi-thread", "time", "sync", "macros"] }
notify-rust = "*"
dirs = "*"
augurs = { version = "*", default-features = false, features = ["seasons", "outlier", "clustering", "dtw", "changepoint"] }
log = "0.4"
serde = { version = "1", features = ["derive"] }
serde_json = "1"
