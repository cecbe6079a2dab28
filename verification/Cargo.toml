[package]
name = "dakia"
version = "0.1.0"
edition = "2021"
publish = false

[dependencies]
pcre2 = "*"
pingora = "*"
pingora-core = "*"
tokio = { version = "*", features = ["rt", "sync"] }
clap = { version = "*", features = ["derive"] }
env_logger = "*"
