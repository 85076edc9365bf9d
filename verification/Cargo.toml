[package]
name = "wordle_timer_bot"
version = "0.1.0"
edition = "2021"
publish = false

[dependencies]
anyhow = "1"
chrono = "0.4"
chrono-tz = "*"
dotenv = "*"
env_logger = "*"
log = "0.4"
opencv = "*"
reqwest = { version = "*", default-features = false }
serenity = "0.12"
tokio = { version = "1", features = ["macros", "rt-multi-thread", "sync", "time", "fs", "io-util"] }
