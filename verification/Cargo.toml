[package]
name = "processfox_core"
version = "0.1.0"
edition = "2021"
publish = false

[dependencies]
quick-xml = "=0.37.5"
zip = { version = "=2.2.3", default-features = false, features = ["deflate"] }
chrono = { version = "=0.4.45", default-features = false, features = ["clock", "std"] }
uuid = { version = "=1.29.0", features = ["v4"] }
serde = { version = "=1.0.229", features = ["derive"] }
serde_json = "=1.0.154"
calamine = "=0.26.1"
umya-spreadsheet = "=2.3.3"
tokio = { version = "=1.54.1", features = ["sync", "rt", "macros"] }
tokio-util = "=0.7.20"
notify = "=6.1.1"
notify-debouncer-mini = "=0.4.1"
