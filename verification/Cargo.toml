[package]
name = "grimoire"
version = "0.1.0"
edition = "2021"
publish = false

[dependencies]
zip = { version = "*", default-features = false, features = ["deflate"] }
serde = { version = "*", features = ["derive"] }
serde_json = "*"
jiff = { version = "*", features = ["serde"] }
