[package]
name = "toot_feed"
version = "0.1.0"
edition = "2021"
publish = false

[dependencies]
actix-web = { version = "=4.18.1", default-features = false, features = ["macros"] }
futures-util = { version = "=0.3.34", default-features = false, features = ["std"] }
reqwest = { version = "=0.12.28" }
serde = { version = "=1.0.229", features = ["derive"] }
serde_json = "=1.0.154"
