[package]
name = "shuro"
version = "0.1.0"
edition = "2021"
publish = false

[dependencies]
serde_json = "*"
serde = { version = "*", features = ["derive"] }
tokio = { version = "*", features = ["rt-multi-thread", "macros", "fs", "time", "process", "io-util"] }
reqwest = { version = "*", default-features = false, features = ["json", "rustls-tls"] }
clap = { version = "*", features = ["derive"] }
toml = "*"
thiserror = "*"
anyhow = "*"
async-trait = "*"
tracing = "*"
tracing-subscriber = { version = "*", features = ["env-filter", "fmt", "registry"] }
tracing-appender = "*"
walkdir = "*"
tempfile = "*"
indicatif = "*"
