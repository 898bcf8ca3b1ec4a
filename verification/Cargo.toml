[package]
name = "bookmark_enricher"
version = "0.1.0"
edition = "2021"
publish = false

[dependencies]
chrono = "*"
dotenv = "*"
reqwest = { version = "*", default-features = false, features = ["json"] }
scraper = "*"
serde_json = "*"
tokio = { version = "*", features = ["rt-multi-thread", "macros", "time"] }
unicode-normalization = "*"
url = "*"
