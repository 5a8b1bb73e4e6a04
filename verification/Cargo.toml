[package]
name = "hello_operator"
version = "0.1.0"
edition = "2021"
publish = false

[dependencies]
clap = { version = "*", features = ["derive"] }
anyhow = "*"
indoc = "*"
