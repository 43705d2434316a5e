[package]
name = "hockeyscraper"
version = "0.1.0"
edition = "2021"
publish = false

[dependencies]
chrono = "0.4"
getopts = "0.2"
reqwest = { version = "0.11", default-features = false, features = ["blocking", "rustls-tls"] }
select = "0.6"
pbr = "1"
serde = { version = "1", features = ["derive"] }
serde_json = "1"
