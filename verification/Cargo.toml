[package]
name = "qfinder"
version = "0.1.0"
edition = "2021"
publish = false

[dependencies]
strsim = "0.11"
urlencoding = "2"
rusqlite = { version = "0.31", features = ["bundled", "functions"] }
tokio = { version = "1", features = ["full"] }
serde = { version = "1", features = ["derive"] }
serde_json = "1"
chrono = "0.4"
shellexpand = "3"
notify = "6"
notify-debouncer-mini = "0.4"
objc = "0.2"
libc = "0.2"
