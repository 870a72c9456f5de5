[package]
name = "fyler_app"
version = "0.1.0"
edition = "2021"
publish = false

[dependencies]
anyhow = "1"
toml = "0.8"
ureq = { version = "3", default-features = false, features = ["native-tls"] }
