[package]
name = "newsmaw"
version = "0.1.0"
edition = "2021"
publish = false

[dependencies]
chrono = "0.4"
sled = "0.34"
soup = "0.5"
url = "2"
reqwest = { version = "0.12", default-features = false }
tokio = { version = "1", default-features = false, features = ["macros", "rt-multi-thread"] }
futures = "0.3"
