[package]
name = "shiori"
version = "0.1.0"
edition = "2021"
publish = false

[dependencies]
pulldown-cmark = "0.12"
quick-xml = "0.37"
zip = { version = "2", default-features = false, features = ["deflate"] }
regex = "1"
urlencoding = "2"
uuid = "1"
serde = { version = "1", features = ["derive"] }
serde_json = "1"
reqwest = { version = "0.12", default-features = false, features = ["json"] }
tokio = { version = "1", features = ["rt", "rt-multi-thread", "time", "sync"] }
