[package]
name = "rivu"
version = "0.1.0"
edition = "2021"
publish = false

[dependencies]
anyhow = "*"
chrono = "*"
clap = { version = "*", features = ["derive"] }
cpu-time = "*"
inquire = "*"
schemars = "*"
serde = { version = "*", features = ["derive"] }
serde_json = "*"
strum = "*"
strum_macros = "*"
