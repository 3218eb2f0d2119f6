[package]
name = "iw4m_log_server"
version = "0.1.0"
edition = "2021"
publish = false

[dependencies]
base64 = "0.21"
clap = { version = "4", features = ["derive"] }
rand = "0.8"
rocket = "0.5"
serde = { version = "1", features = ["derive"] }
serde_json = "1"
urlencoding = "2"
