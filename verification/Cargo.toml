[package]
name = "job_search"
version = "0.1.0"
edition = "2021"
publish = false

[dependencies]
chrono = "0.4"
clap = { version = "4", features = ["derive"] }
prettytable-rs = "0.10"
rusqlite = "0.31"
serde_json = "1"
