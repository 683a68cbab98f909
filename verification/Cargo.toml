[package]
name = "rust_genai"
version = "0.1.0"
edition = "2021"
publish = false

[dependencies]
serde_json = "1"
serde = { version = "1", features = ["derive"] }
actix-web = "4"
reqwest = { version = "0.12", default-features = false, features = ["json"] }
tera = "1"
chrono = "0.4"
futures = "0.3"
