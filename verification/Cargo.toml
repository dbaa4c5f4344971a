[package]
name = "web_api_scraper"
version = "0.1.0"
edition = "2021"
publish = false

[dependencies]
scraper = "*"
ego-tree = "*"
reqwest = { version = "*", default-features = false, features = ["blocking", "rustls-tls"] }
