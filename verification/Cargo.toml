[package]
name = "gdrive"
version = "0.1.0"
edition = "2021"
publish = false

[dependencies]
regex = "=1.13.1"
mime = "=0.3.17"
mime_guess = "=2.0.5"
serde_json = "=1.0.154"
google-drive3 = "=5.0.5"
tokio = { version = "=1.54.1", features = ["macros", "rt-multi-thread"] }
clap = { version = "=4.6.7", features = ["derive"] }
human_bytes = "=0.4.3"
