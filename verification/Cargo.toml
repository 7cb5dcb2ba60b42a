[package]
name = "loki_migration"
version = "0.1.0"
edition = "2021"
publish = false

[dependencies]
chrono = "0.4"
http = "1"
postgres = "0.19"
clap = { version = "4", features = ["derive", "env"] }
anyhow = "1"
