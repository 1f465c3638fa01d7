[package]
name = "scrape_blogger"
version = "1.0.0"
edition = "2021"
publish = false

[dependencies]
actix-files = "0.6"
actix_route_rate_limiter = "*"
actix-web = { version = "4", default-features = false, features = ["macros"] }
chrono = "0.4"
clap = { version = "4", features = ["derive"] }
fs2 = "0.4"
indicatif = "0.17"
rayon = "1"
regex = "1"
reqwest = { version = "0.12", default-features = false, features = ["blocking", "rustls-tls"] }
scraper = "*"
serde = { version = "1", features = ["derive"] }
serde_json = "1"
