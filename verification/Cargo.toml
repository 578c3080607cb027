[package]
name = "radio"
version = "0.1.0"
edition = "2021"
publish = false

[dependencies]
serde = { version = "1", features = ["derive"] }
serde_json = "1"
libc = "0.2"
getopts = "0.2"
actix-web = "4"
actix-files = "0.6"
