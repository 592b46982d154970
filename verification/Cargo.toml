[package]
name = "useful_api"
version = "0.1.0"
edition = "2021"
publish = false

[dependencies]
chrono = "*"
rand = "*"
reqwest = { version = "*", default-features = false, features = ["blocking", "json", "rustls-tls"] }
scraper = "*"
serde = { version = "*", features = ["derive"] }
