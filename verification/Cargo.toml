[package]
name = "inker"
version = "0.1.0"
edition = "2021"
publish = false

[dependencies]
yaml-rust = "0.4"
slugify = "0.1"
pulldown-cmark = "0.9"
chrono = "0.4"
serde = { version = "1", features = ["derive"] }
tera = "1"
actix-web = "4"
actix-files = "0.6"
