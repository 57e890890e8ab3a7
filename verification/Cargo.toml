[package]
name = "lview"
version = "0.1.0"
edition = "2021"
publish = false

[dependencies]
regex = "1"
fuzzy-matcher = "0.3"
tokio = { version = "1", features = ["rt", "rt-multi-thread", "sync", "process", "io-util", "time", "macros"] }
chrono = "0.4"
clap = { version = "4", features = ["derive"] }
crossterm = "*"
ratatui = "*"
directories = "*"
serde = { version = "1", features = ["derive"] }
toml = "*"
