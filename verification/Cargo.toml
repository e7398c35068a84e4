[package]
name = "contact_directory"
version = "0.1.0"
edition = "2021"
publish = false

[dependencies]
actix-web = "4"
actix-files = "0.6"
tera = "1"
serde = { version = "1", features = ["derive"] }
