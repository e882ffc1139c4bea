[package]
name = "prompt_pocket"
version = "0.1.0"
edition = "2021"
publish = false

[dependencies]
serde = { version = "=1.0.229", features = ["derive"] }
serde_json = "=1.0.154"
serde_yaml = "=0.9.34"
sanitize-filename = "=0.6.0"
walkdir = "=2.5.0"
base64 = "=0.23.1"
reqwest = { version = "=0.12.28", default-features = false, features = ["json", "rustls-tls"] }
reqwest_dav = { version = "=0.3.3", default-features = false, features = ["rustls-tls"] }
tokio = { version = "=1.54.1", features = ["rt-multi-thread", "macros", "time"] }
keyring = "=4.2.0"
