[package]
name = "downloader"
version = "0.1.0"
edition = "2021"
publish = false

[dependencies]
clipboard = "0.5"
crossterm = "0.27"
directories = "5"
dirs = "5"
futures = "0.3"
indicatif = "0.17"
is-url = "*"
reqwest = { version = "0.12", default-features = false }
serde_json = "1"
tokio = { version = "1", features = ["full"] }
tokio-tungstenite = "0.21"
