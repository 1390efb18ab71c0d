[package]
name = "folder_auto_banner"
version = "0.1.0"
edition = "2021"
publish = false

[dependencies]
anyhow = "1"
byte-unit = "5"
chrono = "0.4"
clap = { version = "4", features = ["derive"] }
clap_complete = "4"
directories = "5"
ignore = "0.4"
inotify = "0.10"
libc = "0.2"
serde = { version = "1", features = ["derive"] }
serde_json = "1"
toml = "0.8"
tracing = "0.1"
tracing-subscriber = { version = "0.3", features = ["env-filter"] }
