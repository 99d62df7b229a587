[package]
name = "markdown"
version = "0.1.0"
edition = "2021"
publish = false

[dependencies]
chrono = { version = "=0.4.45", default-features = false, features = ["std", "serde"] }
clap = { version = "=4.6.7", features = ["derive", "string"] }
csv = "=1.4.0"
html-escape = "=0.2.15"
md5 = "=0.7.0"
regex = "=1.13.1"
serde = { version = "=1.0.229", features = ["derive"] }
serde_json = "=1.0.154"
serde_yaml = "=0.9.34"
tabled = "=0.22.0"
