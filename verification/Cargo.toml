[package]
name = "mrms_pull"
version = "0.1.0"
edition = "2021"
publish = false

[dependencies]
urlencoding = "*"
commander = "*"
indicatif = "*"
tokio = { version = "*", features = ["macros", "rt-multi-thread"] }
reqwest = { version = "*", default-features = false }

[dev-dependencies]
serde_json = "*"
