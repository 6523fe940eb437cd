[package]
name = "anycms-spa"
version = "0.1.0"
edition = "2021"
publish = false

[dependencies]
mime_guess = "2"
regex = "1"
rust-embed = "8"
actix-web = { version = "4", default-features = false }
axum = { version = "0.8", default-features = false }
thiserror = "1"
tracing = "0.1"
paste = "1"
