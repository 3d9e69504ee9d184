[package]
name = "kiparse"
version = "0.1.0"
edition = "2021"
publish = false

[dependencies]
regex = "*"
clap = { version = "*", features = ["derive"] }
prettytable-rs = "*"
serde = { version = "*", features = ["derive"] }
serde_json = "*"
