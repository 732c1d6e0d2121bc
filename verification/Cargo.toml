[package]
name = "rust_login"
version = "0.1.0"
edition = "2021"
publish = false

[dependencies]
actix-web = { version = "4", features = ["secure-cookies"] }
actix-session = { version = "*", features = ["cookie-session"] }
actix-files = "0.6"
anyhow = "1"
argon2 = "0.5"
rand = "0.8"
serde = { version = "1", features = ["derive"] }
serde_json = "1"
tera = "1"
tokio = { version = "1", features = ["fs"] }
