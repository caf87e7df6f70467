[package]
name = "wrap"
version = "0.1.0"
edition = "2021"
publish = false

[dependencies]
shell-escape = "0.1"
indexmap = { version = "2", features = ["serde"] }
serde = { version = "1", features = ["derive"] }
serde_derive = "1"
anyhow = "1"
clap = { version = "3.1", features = ["derive"] }
color-backtrace = "0.5"
dirs = "4"
exec = "0.3"
pretty_env_logger = "0.4"
config = "0.13"
