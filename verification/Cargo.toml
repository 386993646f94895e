[package]
name = "souk"
version = "0.1.0"
edition = "2021"
publish = false

[dependencies]
serde_json = "1"
semver = "1"
serde = { version = "1", features = ["derive"] }
clap = { version = "4", features = ["derive"] }
clap_complete = "4"
colored = "2"
reqwest = { version = "0.12", default-features = false, features = ["blocking", "json", "rustls-tls"] }
