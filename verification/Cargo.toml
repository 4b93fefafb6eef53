[package]
name = "emile"
version = "0.1.0"
edition = "2021"
publish = false

[dependencies]
anyhow = "1"
chrono = "0.4"
clap = { version = "4", features = ["derive", "cargo"] }
human-date-parser = "*"
notify = "6"
notify-debouncer-mini = "0.3"
regex = "1"
reqwest = { version = "0.12", features = ["json"] }
serde = { version = "1", features = ["derive"] }
serde_derive = "1"
sha2 = "0.10"
slug = "0.1"
time = { version = "0.3", features = ["macros", "parsing", "formatting"] }
tokio = { version = "1", features = ["full"] }
toml = "0.8"
tracing = "0.1"
tracing-appender = "0.2"
tracing-subscriber = { version = "0.3", features = ["env-filter", "time"] }
