[package]
name = "autod"
version = "0.1.0"
edition = "2021"
publish = false

[dependencies]
chrono = "0.4"
clap = { version = "4", features = ["derive"] }
dirs = "*"
indoc = "*"
sanitize-filename = "*"
