[package]
name = "quiche"
version = "0.1.0"
edition = "2021"
publish = false

[dependencies]
sha2 = "*"
zip = "*"
walkdir = "*"
serde = { version = "*", features = ["derive"] }
toml = "*"
reqwest = { version = "*", default-features = false, features = ["blocking"] }
