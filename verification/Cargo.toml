[package]
name = "keymouse_monitor"
version = "2.1.1"
edition = "2021"
publish = false

[dependencies]
chrono = "*"
serde = { version = "*", features = ["derive"] }
serde_json = "*"
rusqlite = "*"
mongodb = "*"
axum = "*"
tokio = { version = "*", features = ["rt-multi-thread", "macros", "sync", "time", "signal", "net"] }
tower-http = { version = "*", features = ["cors", "fs"] }
futures = "*"
parking_lot = "*"
tracing = "*"
tracing-subscriber = { version = "*", features = ["env-filter"] }
rdev = "*"
regex = "*"
