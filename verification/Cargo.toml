[package]
name = "wanxiang_installer"
version = "0.1.0"
edition = "2021"
publish = false

[dependencies]
anyhow = "=1.0.104"
chrono = "=0.4.45"
colored = "=3.1.1"
indicatif = "=0.18.6"
inquire = "=0.9.4"
octocrab = "=0.47.1"
regex = "=1.13.1"
reqwest = { version = "=0.12.28", default-features = false, features = ["rustls-tls"] }
saphyr = "=0.3.3"
semver = "=1.0.28"
sha2 = "=0.11.1"
tempfile = "=3.27.0"
tokio = { version = "=1.54.1", features = ["macros", "rt-multi-thread"] }
walkdir = "=2.5.0"
zip = "=9.2.2"
