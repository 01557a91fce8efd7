[package]
name = "file_exchange"
version = "0.1.0"
edition = "2021"
publish = false

[dependencies]
actix-web = "*"
actix-multipart = "*"
futures = "*"
tera = "*"
serde = { version = "*", features = ["derive"] }
rand = "*"
