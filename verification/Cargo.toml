[package]
name = "epub_download"
version = "0.1.0"
edition = "2021"
publish = false

[dependencies]
scraper = "*"
fast2s = "*"
image = "*"
zip = "*"
chrono = "*"
semver = "*"
walkdir = "*"
quick-xml = { version = "*", features = ["serialize"] }
serde = { version = "*", features = ["derive"] }
serde_json = "*"
reqwest = { version = "*", default-features = false, features = ["blocking"] }
