[package]
name = "rusthttp"
version = "0.1.0"
edition = "2021"
publish = false

[dependencies]
anyhow = "=1.0.104"
colored = "=3.1.1"
reqwest = { version = "=0.13.5", default-features = false, features = ["json"] }
serde = "=1.0.229"
serde_json = "=1.0.151"
tokio = { version = "=1.53.2", features = ["macros", "rt-multi-thread"] }
url = "=2.5.8"
