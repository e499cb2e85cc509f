[package]
name = "quipu"
version = "0.1.0"
edition = "2021"
publish = false

[dependencies]
rand = "*"
anyhow = "*"
crossterm = "*"
ctrlc = "*"
portable-pty = "*"
tokio = { version = "*", features = ["time", "rt"] }
