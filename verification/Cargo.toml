[package]
name = "vault"
version = "0.1.0"
edition = "2021"
publish = false

[dependencies]
byteorder = "=1.5.0"
magnus = "=0.8.4"
nom = "=7.1.3"
serde = { version = "=1.0.229", features = ["derive"] }
serde_magnus = "=0.11.0"
