[package]
name = "junk_core"
version = "0.2.0"
edition = "2021"
publish = false

[dependencies]
url = "2"
serde = { version = "1", features = ["derive"] }
serde_json = "1"
tokio = { version = "1", features = ["full"] }
reqwest = { version = "0.12", default-features = false, features = ["rustls-tls", "stream"] }
futures = "0.3"
dirs = "5"
clap = { version = "4", features = ["derive"] }
ratatui = "0.29"
crossterm = "0.28"
arboard = { version = "3", default-features = false }
anyhow = "1"
