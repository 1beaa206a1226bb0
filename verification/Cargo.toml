[package]
name = "bfup"
version = "0.1.0"
edition = "2021"
publish = false

[dependencies]
anyhow = "*"
clap = { version = "*", features = ["derive"] }
colored = "*"
ron = "*"
serde = { version = "*", features = ["derive"] }
thiserror = "*"
utf8-chars = "*"
