[package]
name = "mangaverse_sync"
version = "0.1.0"
edition = "2021"
publish = false

[dependencies]
uuid = { version = "*", features = ["v4"] }
chrono = "*"
Inflector = "*"
itertools = "*"
scraper = "*"
reqwest = { version = "*", default-features = false }
isahc = "*"
lazy_static = "*"
