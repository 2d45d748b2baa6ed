[package]
name = "lrol"
version = "0.1.0"
edition = "2021"
publish = false

[dependencies]
dateparser = "0.2"
nom = "7"
clap = { version = "4", features = ["derive"] }
colored = "2"
serde = { version = "1", features = ["derive"] }
serde_json = "1"
anyhow = "1"
thiserror = "1"
